//! What moving, opening and closing panes come to, and how a board is stored.
use vstd::prelude::*;
#[allow(unused_imports)]
use crate::board::{
    closed, columns_without, entry_ids, focus_moved, id_after, ids_without, last_place, last_row,
    lemma_moved_sound, moved_horizontally, moved_vertically, opened, pane_index, shown, started,
    stored_models, thread_index, BoardModel, OpenOutcome, PaneEntry,
};
#[allow(unused_imports)]
use crate::columns::{
    holds, kept_columns, kept_ids, lemma_kept_ids, lemma_normalized_unchanged, normalized,
    placed_once, seen_ids, single_columns, well_placed,
};
#[allow(unused_imports)]
use crate::initial_layout::{
    columns_from_places, grouped, initial_columns, initial_focus, initial_panes, lists_text,
    model_ids, places, resolved_workspace, restored_panes, Placed, ThreadDirectory,
};
#[allow(unused_imports)]
use crate::json::{field_items, field_str, field_u64, tree_items, tree_u64, JsonTree};
#[allow(unused_imports)]
use crate::layout_store::{
    columns_of, ids_of, layout_of, layout_tree, lemma_settled_layout_stays, pane_of, panes_of,
    settled_pane, tab_name, LayoutModel, PaneModel,
};
#[allow(unused_imports)]
use crate::moves::{
    is_filled, lemma_rest_after_move, lemma_where_moved_above_or_below, lemma_where_moved_beside,
    other_than, stands_beside, stands_over, without, InsertTarget,
};
#[allow(unused_imports)]
use crate::order::{lemma_stable_sorted, stable_sorted, Sortable};
#[allow(unused_imports)]
use crate::text::trimmed;

verus! {

// ---------------------------------------------------------------------------------------------
// Moving panes on a board
// ---------------------------------------------------------------------------------------------
/// A pane that is moved beside another has the focus and stands there; all else on the board stays
/// as it was. A pane is not moved beside itself, nor beside a pane that is not on the board.
pub proof fn lemma_pane_moved_beside(b: BoardModel, dragged: u64, target: u64, after: bool)
    requires
        b.sound(),
    ensures
        ({
            let m = moved_horizontally(b, dragged, target, after);
            &&& dragged == target || !b.ids().contains(dragged) || !b.ids().contains(target) ==> m
                == b
            &&& dragged != target && b.ids().contains(dragged) && b.ids().contains(target) ==> {
                &&& m.panes == b.panes && m.next_id == b.next_id && m.focused == dragged
                &&& stands_beside(m.columns, b.columns, dragged, target, after)
            }
        }),
{
    lemma_moved_sound(b, dragged, target, after);
    assert(holds(b.columns, dragged) <==> b.ids().contains(dragged));
    assert(holds(b.columns, target) <==> b.ids().contains(target));
    lemma_where_moved_beside(b.columns, dragged, target, after);
    if b.ids().contains(dragged) {
        crate::moves::lemma_moved_beside(b.columns, b.ids(), dragged, target, after);
        let m = crate::moves::moved_beside(b.columns, dragged, target, after)->0;
        lemma_normalized_unchanged(m.0, b.ids());
    }
}

/// A pane that is moved above or below another has the focus and stands there, or beside a column
/// that is full. Where the other pane is not on the board, the pane goes to the right end and the
/// focus stays.
pub proof fn lemma_pane_moved_above_or_below(b: BoardModel, dragged: u64, target: u64, below: bool)
    requires
        b.sound(),
    ensures
        ({
            let m = moved_vertically(b, dragged, target, below);
            &&& dragged == target || !b.ids().contains(dragged) ==> m == b
            &&& dragged != target && b.ids().contains(dragged) && b.ids().contains(target) ==> {
                &&& m.panes == b.panes && m.next_id == b.next_id && m.focused == dragged
                &&& without(b.columns, dragged).contains(seq![target]) ==> stands_over(
                    m.columns,
                    b.columns,
                    dragged,
                    target,
                    below,
                )
                &&& !without(b.columns, dragged).contains(seq![target]) ==> stands_beside(
                    m.columns,
                    b.columns,
                    dragged,
                    target,
                    below,
                )
            }
            &&& dragged != target && b.ids().contains(dragged) && !b.ids().contains(target) ==> {
                &&& m.panes == b.panes && m.next_id == b.next_id && m.focused == b.focused
                &&& m.columns == without(b.columns, dragged).push(seq![dragged])
            }
        }),
{
    lemma_moved_sound(b, dragged, target, below);
    assert(holds(b.columns, dragged) <==> b.ids().contains(dragged));
    assert(holds(b.columns, target) <==> b.ids().contains(target));
    lemma_where_moved_above_or_below(b.columns, dragged, target, below);
    if b.ids().contains(dragged) {
        crate::moves::lemma_moved_above_or_below(b.columns, b.ids(), dragged, target, below);
        let m = crate::moves::moved_above_or_below(b.columns, dragged, target, below)->0;
        lemma_normalized_unchanged(m.0, b.ids());
    }
}

/// What has the focus goes to a target in the way that the target names.
pub proof fn lemma_focus_moved(b: BoardModel, target: u64, flag: bool)
    ensures
        focus_moved(b, InsertTarget::Horizontal { target_pane_id: target, after: flag })
            == moved_horizontally(b, b.focused, target, flag),
        focus_moved(b, InsertTarget::Vertical { target_pane_id: target, below: flag })
            == moved_vertically(b, b.focused, target, flag),
{
}

// ---------------------------------------------------------------------------------------------
// Closing and opening panes
// ---------------------------------------------------------------------------------------------
proof fn lemma_ids_without(col: Seq<u64>, id: u64)
    ensures
        ids_without(col, id) == col.filter(other_than(id)),
    decreases col.len(),
{
    reveal(Seq::filter);
    if col.len() > 0 {
        lemma_ids_without(col.drop_last(), id);
    }
}

proof fn lemma_columns_without(cols: Seq<Seq<u64>>, id: u64)
    ensures
        columns_without(cols, id) == without(cols, id),
    decreases cols.len(),
{
    reveal(Seq::filter);
    let cut = Seq::new(cols.len(), |k: int| cols[k].filter(other_than(id)));
    if cols.len() > 0 {
        let rest = cols.drop_last();
        lemma_columns_without(rest, id);
        lemma_ids_without(cols.last(), id);
        assert(cut.drop_last() =~= Seq::new(rest.len(), |k: int| rest[k].filter(other_than(id))));
    }
}

proof fn lemma_pane_position(panes: Seq<PaneEntry>, id: u64, at: int)
    requires
        0 <= at < panes.len(),
        panes[at].id == id,
        forall|j: int| 0 <= j < at ==> (#[trigger] panes[j]).id != id,
    ensures
        pane_index(panes, id) == at,
    decreases at,
{
    if at > 0 {
        let rest = panes.drop_first();
        assert(panes[0].id != id);
        assert forall|j: int| 0 <= j < at - 1 implies (#[trigger] rest[j]).id != id by {
            assert(rest[j] == panes[j + 1]);
        }
        lemma_pane_position(rest, id, at - 1);
    }
}

/// A pane that is closed leaves the board, with its column where it stood there alone, and all
/// others stay in their places. The focus stays on its pane; where that is the closed one, it goes
/// to the pane before it, or to the first. The last pane stays.
pub proof fn lemma_pane_closed(b: BoardModel, at: int)
    requires
        b.sound(),
        b.ids().no_duplicates(),
        0 <= at < b.panes.len(),
    ensures
        ({
            let id = b.panes[at].id;
            let c = closed(b, id);
            &&& b.panes.len() == 1 ==> c == b
            &&& b.panes.len() > 1 ==> {
                &&& c.panes == b.panes.remove(at)
                &&& c.columns == without(b.columns, id)
                &&& c.next_id == b.next_id
                &&& b.focused != id ==> c.focused == b.focused
                &&& b.focused == id && at > 0 ==> c.focused == b.panes[at - 1].id
                &&& b.focused == id && at == 0 ==> c.focused == b.panes[1].id
            }
        }),
{
    let id = b.panes[at].id;
    assert forall|j: int| 0 <= j < at implies (#[trigger] b.panes[j]).id != id by {
        assert(b.ids()[j] != b.ids()[at]);
    }
    lemma_pane_position(b.panes, id, at);
    if b.panes.len() > 1 {
        let panes = b.panes.remove(at);
        let ids = entry_ids(panes);
        lemma_columns_without(b.columns, id);
        assert(b.ids()[at] == id);
        assert(holds(b.columns, id) <==> b.ids().contains(id));
        lemma_rest_after_move(b.columns, id);
        let cols = without(b.columns, id);
        assert(well_placed(cols, ids)) by {
            assert forall|x: u64| #[trigger] holds(cols, x) <==> ids.contains(x) by {
                assert(holds(b.columns, x) <==> b.ids().contains(x));
                if b.ids().contains(x) && x != id {
                    let k = b.ids().index_of(x);
                    if k < at {
                        assert(ids[k] == x);
                    } else {
                        assert(ids[k - 1] == x);
                    }
                }
                if ids.contains(x) {
                    let k = ids.index_of(x);
                    let from = if k < at {
                        k
                    } else {
                        k + 1
                    };
                    assert(b.ids()[from] == x);
                    assert(b.ids()[from] != b.ids()[at]);
                }
            }
        }
        lemma_normalized_unchanged(cols, ids);
        if at == 0 {
            assert(panes[0] == b.panes[1]);
        } else {
            assert(panes[at - 1] == b.panes[at - 1]);
        }
    }
}

proof fn lemma_thread_position(panes: Seq<PaneEntry>, thread: Seq<char>, at: int)
    requires
        0 <= at <= panes.len(),
        at < panes.len() ==> panes[at].thread == Some(thread),
        forall|j: int| 0 <= j < at ==> (#[trigger] panes[j]).thread != Some(thread),
    ensures
        thread_index(panes, thread) == at,
    decreases at,
{
    if at > 0 {
        let rest = panes.drop_first();
        assert(panes[0].thread != Some(thread));
        assert forall|j: int| 0 <= j < at - 1 implies (#[trigger] rest[j]).thread != Some(
            thread,
        ) by {
            assert(rest[j] == panes[j + 1]);
        }
        if at < panes.len() {
            assert(rest[at - 1] == panes[at]);
        }
        lemma_thread_position(rest, thread, at - 1);
    }
}

/// Opening a thread that a pane shows gives that pane the focus, and the workspace where another is
/// named; nothing moves.
pub proof fn lemma_thread_focused(
    b: BoardModel,
    thread: Seq<char>,
    workspace: Option<Seq<char>>,
    db: ThreadDirectory,
    at: int,
)
    requires
        b.sound(),
        trimmed(thread).len() > 0,
        0 <= at < b.panes.len(),
        b.panes[at].thread == Some(thread),
        forall|j: int| 0 <= j < at ==> (#[trigger] b.panes[j]).thread != Some(thread),
    ensures
        ({
            let o = opened(b, Some(thread), workspace, db);
            let id = b.panes[at].id;
            let renamed = workspace is Some && workspace != b.panes[at].workspace;
            &&& o.0.focused == id
            &&& o.0.columns == b.columns && o.0.next_id == b.next_id
            &&& o.0.panes == (if renamed {
                b.panes.update(at, PaneEntry { workspace, ..b.panes[at] })
            } else {
                b.panes
            })
            &&& o.1 == (if id == b.focused && !renamed {
                OpenOutcome::Unchanged
            } else {
                OpenOutcome::Focused { pane_id: id, workspace_changed: renamed }
            })
        }),
{
    lemma_thread_position(b.panes, thread, at);
    let panes = b.panes.update(at, PaneEntry { workspace, ..b.panes[at] });
    assert(entry_ids(panes) =~= b.ids());
    lemma_normalized_unchanged(b.columns, b.ids());
}

/// Opening a thread that no pane shows opens a new pane for it, in a column of its own at the right
/// end, with the focus; nothing else changes. Without a thread nothing happens.
pub proof fn lemma_thread_opened(
    b: BoardModel,
    thread: Seq<char>,
    workspace: Option<Seq<char>>,
    db: ThreadDirectory,
)
    requires
        b.sound(),
        b.next_id < u64::MAX,
        forall|j: int| 0 <= j < b.panes.len() ==> (#[trigger] b.panes[j]).thread != Some(thread),
    ensures
        trimmed(thread).len() > 0 ==> opened(b, Some(thread), workspace, db) == (
            BoardModel {
                panes: b.panes.push(
                    PaneEntry {
                        id: b.next_id,
                        thread: Some(thread),
                        workspace: resolved_workspace(db, Some(thread), workspace, None),
                    },
                ),
                columns: b.columns.push(seq![b.next_id]),
                focused: b.next_id,
                next_id: (b.next_id + 1) as u64,
            },
            OpenOutcome::Opened { pane_id: b.next_id },
        ),
        trimmed(thread).len() == 0 ==> opened(b, Some(thread), workspace, db) == (
            b,
            OpenOutcome::NoThread,
        ),
        opened(b, None, workspace, db) == (b, OpenOutcome::NoThread),
{
    lemma_thread_position(b.panes, thread, b.panes.len() as int);
    let entry = PaneEntry {
        id: b.next_id,
        thread: Some(thread),
        workspace: resolved_workspace(db, Some(thread), workspace, None),
    };
    let panes = b.panes.push(entry);
    let cols = b.columns.push(seq![b.next_id]);
    let id = b.next_id;
    assert(!holds(b.columns, id)) by {
        if holds(b.columns, id) {
            assert(b.ids().contains(id));
            let k = b.ids().index_of(id);
            assert(b.panes[k].id < id);
        }
    }
    crate::moves::lemma_column_inserted(b.columns, b.columns.len() as int, id);
    assert(b.columns.insert(b.columns.len() as int, seq![id]) =~= cols);
    assert(well_placed(cols, entry_ids(panes))) by {
        assert(entry_ids(panes) =~= b.ids().push(id));
        assert forall|x: u64| #[trigger] holds(cols, x) <==> entry_ids(panes).contains(x) by {
            assert(holds(cols, x) <==> holds(b.columns, x) || x == id);
            assert(holds(b.columns, x) <==> b.ids().contains(x));
            if b.ids().contains(x) {
                let k = b.ids().index_of(x);
                assert(entry_ids(panes)[k] == x);
            }
            if x == id {
                assert(entry_ids(panes)[b.panes.len() as int] == x);
            }
            if entry_ids(panes).contains(x) && x != id {
                let k = entry_ids(panes).index_of(x);
                assert(b.ids()[k] == x);
            }
        }
    }
    lemma_normalized_unchanged(cols, entry_ids(panes));
}

/// What a pane shows changes for the first pane with an identifier alone.
pub proof fn lemma_pane_shows(
    b: BoardModel,
    at: int,
    thread: Option<Seq<char>>,
    workspace: Option<Seq<char>>,
)
    requires
        0 <= at < b.panes.len(),
        forall|j: int| 0 <= j < at ==> (#[trigger] b.panes[j]).id != b.panes[at].id,
    ensures
        shown(b, b.panes[at].id, thread, workspace) == (BoardModel {
            panes: b.panes.update(at, PaneEntry { id: b.panes[at].id, thread, workspace }),
            ..b
        }),
{
    lemma_pane_position(b.panes, b.panes[at].id, at);
}

/// The workspace of a thread is the one that is named, or else the one that the directory has for
/// the thread, or else the one to fall back on; blank ones do not count.
pub proof fn lemma_workspace_of_thread(
    db: ThreadDirectory,
    thread: Seq<char>,
    named: Seq<char>,
    fallback: Option<Seq<char>>,
    at: int,
)
    ensures
        trimmed(named).len() > 0 ==> resolved_workspace(db, Some(thread), Some(named), fallback)
            == Some(named),
        trimmed(named).len() == 0 && 0 <= at < db.workspaces@.len() && db.workspaces@[at].0@
            == thread && (forall|j: int|
            0 <= j < at ==> (#[trigger] db.workspaces@[j]).0@ != thread) ==> resolved_workspace(
            db,
            Some(thread),
            Some(named),
            fallback,
        ) == Some(db.workspaces@[at].1@) && resolved_workspace(db, Some(thread), None, fallback)
            == Some(db.workspaces@[at].1@),
        (forall|j: int|
            0 <= j < db.workspaces@.len() ==> (#[trigger] db.workspaces@[j]).0@ != thread)
            ==> resolved_workspace(db, Some(thread), None, fallback) == (match fallback {
            Some(f) => if trimmed(f).len() > 0 {
                Some(f)
            } else {
                None
            },
            None => None,
        }),
{
    lemma_first_value(db.workspaces@, thread, at);
    lemma_first_value(db.workspaces@, thread, db.workspaces@.len() as int);
}

proof fn lemma_first_value(pairs: Seq<(String, String)>, key: Seq<char>, at: int)
    ensures
        0 <= at <= pairs.len() && (at < pairs.len() ==> pairs[at].0@ == key) && (forall|j: int|
            0 <= j < at ==> (#[trigger] pairs[j]).0@ != key)
            ==> crate::initial_layout::first_value(pairs, key) == (if at < pairs.len() {
            Some(pairs[at].1@)
        } else {
            None
        }),
    decreases pairs.len(),
{
    if 0 < at <= pairs.len() {
        let rest = pairs.drop_first();
        lemma_first_value(rest, key, at - 1);
        if forall|j: int| 0 <= j < at ==> (#[trigger] pairs[j]).0@ != key {
            assert(pairs[0].0@ != key);
            assert forall|j: int| 0 <= j < at - 1 implies (#[trigger] rest[j]).0@ != key by {
                assert(rest[j] == pairs[j + 1]);
            }
            if at < pairs.len() {
                assert(rest[at - 1] == pairs[at]);
            }
        }
    }
}

// ---------------------------------------------------------------------------------------------
// Bringing columns in line with panes
// ---------------------------------------------------------------------------------------------
pub open spec fn is_among(ids: Seq<u64>) -> spec_fn(u64) -> bool {
    |x: u64| ids.contains(x)
}

pub open spec fn has_no_place(cols: Seq<Seq<u64>>) -> spec_fn(u64) -> bool {
    |x: u64| !holds(cols, x)
}

/// Columns in which no pane stands twice keep their panes in their places, but for those that are
/// not there any more; the panes that have no place get columns of their own at the right end, in
/// their order.
pub proof fn lemma_columns_brought_in_line(cols: Seq<Seq<u64>>, ids: Seq<u64>)
    requires
        placed_once(cols),
        forall|c: int| 0 <= c < cols.len() ==> (#[trigger] cols[c]).len() <= 2,
        ids.no_duplicates(),
    ensures
        normalized(cols, ids) == Seq::new(
            cols.len(),
            |c: int| cols[c].filter(is_among(ids)),
        ).filter(is_filled()) + Seq::new(
            ids.filter(has_no_place(cols)).len(),
            |i: int| seq![ids.filter(has_no_place(cols))[i]],
        ),
{
    lemma_kept_in_place(cols, ids);
    lemma_missing(ids, ids, cols, seen_ids(cols, ids));
    let missing = ids.filter(has_no_place(cols));
    assert(kept_ids(ids, ids, seen_ids(cols, ids)) == missing) by {
        assert forall|x: u64| #[trigger] ids.contains(x) implies (seen_ids(cols, ids).contains(x)
            <==> holds(cols, x)) by {
            lemma_seen_holds(cols, ids, x);
        }
    }
    assert(single_columns(missing) =~= Seq::new(missing.len(), |i: int| seq![missing[i]]));
}

proof fn lemma_seen_holds(cols: Seq<Seq<u64>>, ids: Seq<u64>, x: u64)
    requires
        ids.contains(x),
    ensures
        seen_ids(cols, ids).contains(x) <==> holds(cols, x),
    decreases cols.len(),
{
    if cols.len() > 0 {
        let rest = cols.drop_last();
        let seen = seen_ids(rest, ids);
        let last = cols.last();
        let kept = kept_ids(last, ids, seen);
        lemma_seen_holds(rest, ids, x);
        lemma_kept_ids(last, ids, seen);
        let all = seen_ids(cols, ids);
        if all.contains(x) {
            let k = all.index_of(x);
            if k < seen.len() {
                assert(seen[k] == x);
                let c = choose|c: int| 0 <= c < rest.len() && (#[trigger] rest[c]).contains(x);
                assert(cols[c].contains(x));
            } else {
                assert(kept[k - seen.len()] == x);
                assert(kept.contains(x));
                assert(cols[cols.len() - 1].contains(x));
            }
        }
        if holds(cols, x) {
            let c = choose|c: int| 0 <= c < cols.len() && (#[trigger] cols[c]).contains(x);
            if c < rest.len() {
                assert(rest[c].contains(x));
            }
            if seen.contains(x) {
                let k = seen.index_of(x);
                assert(all[k] == x);
            } else {
                assert(c == rest.len()) by {
                    if c < rest.len() {
                        assert(holds(rest, x));
                    }
                }
                assert(kept.contains(x));
                let k = kept.index_of(x);
                assert(all[seen.len() + k] == x);
            }
        }
    }
}

proof fn lemma_missing(list: Seq<u64>, ids: Seq<u64>, cols: Seq<Seq<u64>>, seen: Seq<u64>)
    requires
        list.no_duplicates(),
        forall|x: u64| #[trigger] list.contains(x) ==> ids.contains(x),
    ensures
        (forall|x: u64| #[trigger] ids.contains(x) ==> (seen.contains(x) <==> holds(cols, x)))
            ==> kept_ids(list, ids, seen) == list.filter(has_no_place(cols)),
    decreases list.len(),
{
    reveal(Seq::filter);
    if list.len() > 0 {
        let rest = list.drop_last();
        let x = list.last();
        assert(list[list.len() - 1] == x);
        assert(list.contains(x));
        assert forall|y: u64| #[trigger] rest.contains(y) implies ids.contains(y) by {
            let k = rest.index_of(y);
            assert(list[k] == y);
            assert(list.contains(y));
        }
        lemma_missing(rest, ids, cols, seen);
        lemma_kept_ids(rest, ids, seen);
        assert(!rest.contains(x)) by {
            if rest.contains(x) {
                let k = rest.index_of(x);
                assert(list[k] == list[list.len() - 1]);
            }
        }
    }
}

proof fn lemma_kept_column(col: Seq<u64>, ids: Seq<u64>, seen: Seq<u64>)
    requires
        col.no_duplicates(),
        forall|x: u64| #[trigger] col.contains(x) ==> !seen.contains(x),
    ensures
        kept_ids(col, ids, seen) == col.filter(is_among(ids)),
    decreases col.len(),
{
    reveal(Seq::filter);
    if col.len() > 0 {
        let rest = col.drop_last();
        let x = col.last();
        assert(col[col.len() - 1] == x);
        assert(col.contains(x));
        assert forall|y: u64| #[trigger] rest.contains(y) implies !seen.contains(y) by {
            let k = rest.index_of(y);
            assert(col[k] == y);
            assert(col.contains(y));
        }
        lemma_kept_column(rest, ids, seen);
        lemma_kept_ids(rest, ids, seen);
        assert(!rest.contains(x)) by {
            if rest.contains(x) {
                let k = rest.index_of(x);
                assert(col[k] == col[col.len() - 1]);
            }
        }
    }
}

proof fn lemma_kept_in_place(cols: Seq<Seq<u64>>, ids: Seq<u64>)
    requires
        placed_once(cols),
        forall|c: int| 0 <= c < cols.len() ==> (#[trigger] cols[c]).len() <= 2,
    ensures
        kept_columns(cols, ids) == Seq::new(
            cols.len(),
            |c: int| cols[c].filter(is_among(ids)),
        ).filter(is_filled()),
    decreases cols.len(),
{
    reveal(Seq::filter);
    let all = Seq::new(cols.len(), |c: int| cols[c].filter(is_among(ids)));
    if cols.len() > 0 {
        let rest = cols.drop_last();
        let last = cols.last();
        let seen = seen_ids(rest, ids);
        assert(cols[cols.len() - 1] == last);
        assert forall|c: int| 0 <= c < rest.len() implies (#[trigger] rest[c]).len() <= 2 by {
            assert(rest[c] == cols[c]);
        }
        assert(placed_once(rest)) by {
            assert forall|c: int| 0 <= c < rest.len() implies (
            #[trigger] rest[c]).no_duplicates() by {
                assert(rest[c] == cols[c]);
            }
            assert forall|c: int, d: int, id: u64|
                #![trigger rest[c].contains(id), rest[d].contains(id)]
                0 <= c < rest.len() && 0 <= d < rest.len() && rest[c].contains(id)
                    && rest[d].contains(id) implies c == d by {
                assert(cols[c].contains(id) && cols[d].contains(id));
            }
        }
        lemma_kept_in_place(rest, ids);
        assert forall|x: u64| #[trigger] last.contains(x) implies !seen.contains(x) by {
            if seen.contains(x) {
                lemma_seen_known(rest, ids, x);
                lemma_seen_holds(rest, ids, x);
                let c = choose|c: int| 0 <= c < rest.len() && (#[trigger] rest[c]).contains(x);
                assert(cols[c].contains(x));
                assert(cols[cols.len() - 1].contains(x));
            }
        }
        lemma_kept_column(last, ids, seen);
        lemma_kept_ids(last, ids, seen);
        assert(all.drop_last() =~= Seq::new(
            rest.len(),
            |c: int| rest[c].filter(is_among(ids)),
        ));
    }
}

proof fn lemma_seen_known(cols: Seq<Seq<u64>>, ids: Seq<u64>, x: u64)
    requires
        seen_ids(cols, ids).contains(x),
    ensures
        ids.contains(x),
    decreases cols.len(),
{
    if cols.len() > 0 {
        let seen = seen_ids(cols.drop_last(), ids);
        let kept = kept_ids(cols.last(), ids, seen);
        lemma_kept_ids(cols.last(), ids, seen);
        let all = seen_ids(cols, ids);
        let k = all.index_of(x);
        if k < seen.len() {
            assert(seen[k] == x);
            lemma_seen_known(cols.drop_last(), ids, x);
        } else {
            assert(kept[k - seen.len()] == x);
            assert(kept.contains(x));
        }
    }
}

// ---------------------------------------------------------------------------------------------
// Storing and reading a layout
// ---------------------------------------------------------------------------------------------
/// Whether a pane is stored as it is: its thread has a name without blanks at the ends, its
/// workspace is not blank, its tab is one of the three, and its place is known.
pub open spec fn is_plain_pane(p: PaneModel) -> bool {
    &&& p.thread matches Some(t) ==> t.len() > 0 && trimmed(t) == t
    &&& p.workspace matches Some(w) ==> trimmed(w).len() > 0
    &&& p.tab == "chat"@ || p.tab == "git"@ || p.tab == "files"@
    &&& p.column is Some && p.column->0 <= u64::MAX
    &&& p.row is Some && p.row->0 <= u64::MAX
}

/// What is stored is read again: the focus, every pane with its thread, workspace, tab and place,
/// and every column.
pub proof fn lemma_layout_read_again(panes: Seq<PaneModel>, columns: Seq<Seq<u64>>, focused: u64)
    requires
        forall|i: int| 0 <= i < panes.len() ==> is_plain_pane(#[trigger] panes[i]),
        forall|c: int| 0 <= c < columns.len() ==> (#[trigger] columns[c]).len() > 0,
    ensures
        ({
            let layout = layout_of(layout_tree(panes, columns, focused));
            &&& layout.focused == focused
            &&& layout.panes == panes
            &&& layout.columns == Some(columns)
        }),
{
    reveal_strlit("chat");
    reveal_strlit("git");
    reveal_strlit("files");
    assert forall|i: int| 0 <= i < panes.len() implies #[trigger] panes[i] == settled_pane(
        panes[i],
    ) by {
        let p = panes[i];
        assert(is_plain_pane(p));
        assert(settled_pane(p).tab == p.tab);
        assert(settled_pane(p).thread == p.thread);
        assert(settled_pane(p).workspace == p.workspace);
        assert(settled_pane(p).column == p.column);
        assert(settled_pane(p).row == p.row);
    }
    lemma_settled_layout_stays(panes, columns, focused);
}

/// The keys under which a layout is stored.
pub proof fn lemma_stored_keys(
    panes: Seq<PaneModel>,
    columns: Seq<Seq<u64>>,
    focused: u64,
    i: int,
    c: int,
)
    requires
        0 <= i < panes.len(),
        0 <= c < columns.len(),
    ensures
        ({
            let doc = layout_tree(panes, columns, focused);
            let stored = field_items(doc, "panes"@)->0;
            let lists = field_items(doc, "columns"@)->0;
            let pane = stored[i];
            &&& field_u64(doc, "version"@) == Some(1u64)
            &&& field_u64(doc, "focusedPaneId"@) == Some(focused)
            &&& field_items(doc, "panes"@) is Some && stored.len() == panes.len()
            &&& field_u64(pane, "id"@) == Some(panes[i].id)
            &&& field_str(pane, "codexThreadId"@) == panes[i].thread
            &&& field_str(pane, "workspacePath"@) == panes[i].workspace
            &&& field_str(pane, "tab"@) is Some
            &&& panes[i].column is Some ==> field_u64(pane, "column"@) == Some(
                panes[i].column->0 as u64,
            )
            &&& panes[i].row is Some ==> field_u64(pane, "row"@) == Some(panes[i].row->0 as u64)
            &&& field_items(doc, "columns"@) is Some && lists.len() == columns.len()
            &&& tree_items(lists[c]) is Some && tree_items(lists[c])->0.len() == columns[c].len()
            &&& forall|k: int|
                0 <= k < columns[c].len() ==> tree_u64(#[trigger] tree_items(lists[c])->0[k])
                    == Some(columns[c][k])
        }),
{
    reveal_strlit("version");
    reveal_strlit("focusedPaneId");
    reveal_strlit("panes");
    reveal_strlit("columns");
    reveal_strlit("id");
    reveal_strlit("codexThreadId");
    reveal_strlit("workspacePath");
    reveal_strlit("tab");
    reveal_strlit("column");
    reveal_strlit("row");
    assert("version"@.len() == 7 && "focusedPaneId"@.len() == 13 && "panes"@.len() == 5
        && "columns"@.len() == 7 && "id"@.len() == 2 && "codexThreadId"@.len() == 13
        && "workspacePath"@.len() == 13 && "tab"@.len() == 3 && "column"@.len() == 6 && "row"@.len()
        == 3);
    assert("version"@[0] == 'v' && "columns"@[0] == 'c' && "codexThreadId"@[0] == 'c'
        && "workspacePath"@[0] == 'w' && "focusedPaneId"@[0] == 'f' && "tab"@[0] == 't'
        && "row"@[0] == 'r');
}

/// A stored pane needs an identifier; then its other entries count where they are of use.
pub proof fn lemma_pane_read(t: JsonTree, id: u64, thread: Seq<char>, path: Seq<char>, n: u64)
    ensures
        field_u64(t, "id"@) is None ==> pane_of(t) is None,
        field_u64(t, "id"@) == Some(id) ==> (pane_of(t) matches Some(p) && {
            &&& p.id == id
            &&& field_str(t, "codexThreadId"@) == Some(thread) && trimmed(thread).len() > 0
                ==> p.thread == Some(trimmed(thread))
            &&& field_str(t, "codexThreadId"@) is None ==> p.thread is None
            &&& field_str(t, "codexThreadId"@) == Some(thread) && trimmed(thread).len() == 0
                ==> p.thread is None
            &&& field_str(t, "workspacePath"@) == Some(path) && trimmed(path).len() > 0
                ==> p.workspace == Some(path)
            &&& field_str(t, "workspacePath"@) is None ==> p.workspace is None
            &&& field_str(t, "tab"@) == Some("git"@) ==> p.tab == "git"@
            &&& field_str(t, "tab"@) == Some("files"@) ==> p.tab == "files"@
            &&& field_str(t, "tab"@) != Some("git"@) && field_str(t, "tab"@) != Some("files"@)
                ==> p.tab == "chat"@
            &&& field_u64(t, "column"@) is None ==> p.column is None
            &&& field_u64(t, "column"@) == Some(n) && n <= usize::MAX ==> p.column == Some(
                n as usize,
            )
            &&& field_u64(t, "row"@) is None ==> p.row is None
            &&& field_u64(t, "row"@) == Some(n) && n <= usize::MAX ==> p.row == Some(n as usize)
        }),
{
    reveal_strlit("git");
    reveal_strlit("files");
    assert("git"@.len() == 3 && "files"@.len() == 5);
}

proof fn lemma_last_row(col: Seq<u64>, id: u64)
    ensures
        match last_row(col, id) {
            Some(r) => 0 <= r < col.len() && col[r] == id,
            None => !col.contains(id),
        },
    decreases col.len(),
{
    if col.len() > 0 && col.last() != id {
        lemma_last_row(col.drop_last(), id);
        if col.contains(id) {
            let k = col.index_of(id);
            assert(col.drop_last()[k] == id);
        }
        if let Some(r) = last_row(col.drop_last(), id) {
            assert(col.drop_last()[r] == col[r]);
        }
    }
}

proof fn lemma_last_place(cols: Seq<Seq<u64>>, id: u64)
    requires
        holds(cols, id),
    ensures
        ({
            let place = last_place(cols, id);
            0 <= place.0 < cols.len() && 0 <= place.1 < cols[place.0].len()
                && cols[place.0][place.1] == id
        }),
    decreases cols.len(),
{
    let rest = cols.drop_last();
    lemma_last_row(cols.last(), id);
    if last_row(cols.last(), id) is None {
        let c = choose|c: int| 0 <= c < cols.len() && (#[trigger] cols[c]).contains(id);
        assert(rest[c] == cols[c]);
        assert(rest[c].contains(id));
        lemma_last_place(rest, id);
        let place = last_place(rest, id);
        assert(rest[place.0] == cols[place.0]);
    }
}

/// Every pane of a board is stored with what it shows, and with the place where it stands.
pub proof fn lemma_pane_stored_in_place(b: BoardModel, tabs: Seq<Seq<char>>, i: int)
    requires
        b.sound(),
        b.columns.len() <= usize::MAX,
        tabs.len() == b.panes.len(),
        0 <= i < b.panes.len(),
    ensures
        ({
            let p = stored_models(b, tabs)[i];
            &&& stored_models(b, tabs).len() == b.panes.len()
            &&& p.id == b.panes[i].id && p.thread == b.panes[i].thread && p.workspace
                == b.panes[i].workspace
            &&& p.column is Some && p.row is Some
            &&& p.column->0 < b.columns.len() && p.row->0 < b.columns[p.column->0 as int].len()
            &&& b.columns[p.column->0 as int][p.row->0 as int] == p.id
            &&& tabs[i] == "git"@ || tabs[i] == "files"@ || tabs[i] == "chat"@ ==> p.tab == tabs[i]
        }),
{
    reveal_strlit("git");
    reveal_strlit("files");
    reveal_strlit("chat");
    let id = b.panes[i].id;
    assert(b.ids()[i] == id);
    assert(holds(b.columns, id) <==> b.ids().contains(id));
    lemma_last_place(b.columns, id);
    assert(1 <= b.columns[last_place(b.columns, id).0].len() <= 2);
}

// ---------------------------------------------------------------------------------------------
// Coming back
// ---------------------------------------------------------------------------------------------
/// Of the stored panes, one comes back where its thread is open and no pane that came back before
/// shows it; it keeps its identifier, thread, tab and place, and gets a workspace.
pub proof fn lemma_pane_comes_back(
    before: Seq<PaneModel>,
    pane: PaneModel,
    db: ThreadDirectory,
    fallback: Option<Seq<char>>,
    thread: Seq<char>,
)
    ensures
        ({
            let head = restored_panes(before, db, fallback);
            let all = restored_panes(before.push(pane), db, fallback);
            let open = trimmed(thread).len() > 0 && exists|k: int|
                0 <= k < db.open_threads@.len() && #[trigger] db.open_threads@[k]@ == thread;
            let shown_before = exists|k: int|
                0 <= k < head.len() && #[trigger] head[k].thread == Some(thread);
            &&& pane.thread is None ==> all == head
            &&& pane.thread == Some(thread) && (!open || shown_before) ==> all == head
            &&& pane.thread == Some(thread) && open && !shown_before ==> {
                &&& all.len() == head.len() + 1 && all.drop_last() == head
                &&& all.last().id == pane.id && all.last().thread == Some(thread)
                &&& all.last().column == pane.column && all.last().row == pane.row
                &&& all.last().workspace == resolved_workspace(
                    db,
                    Some(thread),
                    pane.workspace,
                    fallback,
                )
                &&& pane.tab == "git"@ || pane.tab == "files"@ || pane.tab == "chat"@
                    ==> all.last().tab == pane.tab
            }
            &&& restored_panes(Seq::empty(), db, fallback) == Seq::<PaneModel>::empty()
        }),
{
    reveal_strlit("git");
    reveal_strlit("files");
    reveal_strlit("chat");
    let head = restored_panes(before, db, fallback);
    let all = restored_panes(before.push(pane), db, fallback);
    assert(before.push(pane).drop_last() =~= before);
    if all.len() == head.len() + 1 {
        assert(all.drop_last() =~= head);
    }
}

/// Where no pane comes back, one pane shows the thread to fall back on. The stored focus counts
/// where its pane came back, else the first pane has it; and the stored columns count where there
/// are some.
pub proof fn lemma_start_of_session(
    stored: LayoutModel,
    db: ThreadDirectory,
    thread: Option<Seq<char>>,
    workspace: Option<Seq<char>>,
)
    ensures
        ({
            let restored = restored_panes(stored.panes, db, workspace);
            let panes = initial_panes(stored, db, thread, workspace);
            let focus = initial_focus(panes, stored.focused);
            &&& restored.len() > 0 ==> panes == restored
            &&& restored.len() == 0 ==> panes.len() == 1 && panes[0].id == 1 && panes[0].workspace
                == workspace && panes[0].tab == "chat"@
            &&& restored.len() == 0 && thread is Some && trimmed(thread->0).len() > 0
                ==> panes[0].thread == thread
            &&& restored.len() == 0 && thread is None ==> panes[0].thread is None
            &&& (exists|k: int| 0 <= k < panes.len() && #[trigger] panes[k].id == stored.focused)
                ==> focus == stored.focused
            &&& !(exists|k: int| 0 <= k < panes.len() && #[trigger] panes[k].id == stored.focused)
                ==> focus == panes[0].id
            &&& stored.columns matches Some(cols) ==> initial_columns(panes, stored.columns)
                == normalized(cols, model_ids(panes))
        }),
{
    let panes = initial_panes(stored, db, thread, workspace);
    if exists|k: int| 0 <= k < panes.len() && #[trigger] panes[k].id == stored.focused {
        let k = choose|k: int| 0 <= k < panes.len() && #[trigger] panes[k].id == stored.focused;
        assert(model_ids(panes)[k] == stored.focused);
    }
    if model_ids(panes).contains(stored.focused) {
        let k = model_ids(panes).index_of(stored.focused);
        assert(panes[k].id == stored.focused);
    }
}

// ---------------------------------------------------------------------------------------------
// Columns from the places of panes
// ---------------------------------------------------------------------------------------------
/// The places where panes were stored; one without a place stands behind all others.
pub open spec fn stored_places(panes: Seq<PaneModel>) -> Seq<Placed> {
    Seq::new(
        panes.len(),
        |i: int|
            Placed {
                column: if panes[i].column is Some {
                    panes[i].column->0
                } else {
                    usize::MAX
                },
                row: if panes[i].row is Some {
                    panes[i].row->0
                } else {
                    usize::MAX
                },
                id: panes[i].id,
            },
    )
}

/// Whether places go from left to right, and from the top down in each column.
pub open spec fn by_place(rows: Seq<Placed>) -> bool {
    forall|i: int, j: int|
        0 <= i < j < rows.len() ==> (#[trigger] rows[i]).column < (#[trigger] rows[j]).column || (
        rows[i].column == rows[j].column && rows[i].row <= rows[j].row)
}

pub open spec fn in_column(column: usize) -> spec_fn(Placed) -> bool {
    |p: Placed| p.column == column
}

pub open spec fn placed_ids(rows: Seq<Placed>) -> Seq<u64> {
    Seq::new(rows.len(), |i: int| rows[i].id)
}

/// Whether columns hold the panes of the stored columns that are given, at most two of each.
pub open spec fn holds_by_column(
    cols: Seq<Seq<u64>>,
    rows: Seq<Placed>,
    keys: Seq<usize>,
) -> bool {
    &&& cols.len() == keys.len()
    &&& forall|c: int, d: int| 0 <= c < d < keys.len() ==> #[trigger] keys[c] < #[trigger] keys[d]
    &&& forall|i: int| 0 <= i < rows.len() ==> keys.contains((#[trigger] rows[i]).column)
    &&& forall|c: int|
        0 <= c < keys.len() ==> {
            let ids = placed_ids(rows.filter(in_column(#[trigger] keys[c])));
            cols[c] == if ids.len() > 2 {
                ids.take(2)
            } else {
                ids
            }
        }
}

proof fn lemma_grouped(rows: Seq<Placed>) -> (keys: Seq<usize>)
    requires
        by_place(rows),
    ensures
        holds_by_column(grouped(rows), rows, keys),
        rows.len() > 0 ==> keys.len() > 0 && keys.last() == rows.last().column,
    decreases rows.len(),
{
    reveal(Seq::filter);
    if rows.len() == 0 {
        seq![]
    } else {
        let rest = rows.drop_last();
        let last = rows.last();
        let head = grouped(rest);
        assert(by_place(rest)) by {
            assert forall|i: int, j: int| 0 <= i < j < rest.len() implies (
            #[trigger] rest[i]).column < (#[trigger] rest[j]).column || (rest[i].column
                == rest[j].column && rest[i].row <= rest[j].row) by {
                assert(rows[i] == rest[i] && rows[j] == rest[j]);
            }
        }
        let before = lemma_grouped(rest);
        let cols = grouped(rows);
        if rows.len() == 1 || rows[rows.len() - 2].column != last.column {
            let keys = before.push(last.column);
            assert forall|i: int| 0 <= i < rest.len() implies (#[trigger] rest[i]).column
                < last.column by {
                assert(rows[i] == rest[i]);
                assert(rows[rows.len() - 2] == rest[rest.len() - 1]);
                assert(rows[rows.len() - 1] == last);
                if i < rest.len() - 1 {
                    assert(rows[i].column <= rows[rows.len() - 2].column);
                }
            }
            assert forall|c: int| 0 <= c < before.len() implies #[trigger] before[c]
                < last.column by {
                assert(rest.len() > 0);
                if c < before.len() - 1 {
                    assert(before[c] < before[before.len() - 1]);
                }
                assert(before.last() == rest[rest.len() - 1].column);
            }
            lemma_none_in_column(rest, last.column);
            assert forall|i: int| 0 <= i < rows.len() implies keys.contains(
                (#[trigger] rows[i]).column,
            ) by {
                if i < rest.len() {
                    assert(before.contains(rest[i].column));
                    let k = before.index_of(rest[i].column);
                    assert(keys[k] == rows[i].column);
                } else {
                    assert(keys[before.len() as int] == last.column);
                }
            }
            assert forall|c: int| 0 <= c < keys.len() implies ({
                let ids = placed_ids(rows.filter(in_column(#[trigger] keys[c])));
                cols[c] == if ids.len() > 2 {
                    ids.take(2)
                } else {
                    ids
                }
            }) by {
                if c < before.len() {
                    assert(keys[c] == before[c]);
                    assert(before[c] < last.column);
                    assert(rows.filter(in_column(keys[c])) == rest.filter(in_column(before[c])));
                } else {
                    assert(rows.filter(in_column(keys[c])) =~= seq![last]);
                    assert(placed_ids(seq![last]) =~= seq![last.id]);
                }
            }
            keys
        } else {
            let keys = before;
            let k = keys.len() - 1;
            assert(rows[rows.len() - 2] == rest[rest.len() - 1]);
            assert(keys[k] == last.column);
            assert forall|i: int| 0 <= i < rows.len() implies keys.contains(
                (#[trigger] rows[i]).column,
            ) by {
                if i < rest.len() {
                    assert(before.contains(rest[i].column));
                } else {
                    assert(keys[k] == rows[i].column);
                }
            }
            assert forall|c: int| 0 <= c < keys.len() implies ({
                let ids = placed_ids(rows.filter(in_column(#[trigger] keys[c])));
                cols[c] == if ids.len() > 2 {
                    ids.take(2)
                } else {
                    ids
                }
            }) by {
                let old_rows = rest.filter(in_column(keys[c]));
                let old_ids = placed_ids(old_rows);
                assert(head[c] == if old_ids.len() > 2 {
                    old_ids.take(2)
                } else {
                    old_ids
                });
                if c < k {
                    assert(keys[c] < keys[k]);
                    assert(rows.filter(in_column(keys[c])) == old_rows);
                } else {
                    assert(rows.filter(in_column(keys[c])) == old_rows.push(last));
                    let ids = placed_ids(old_rows.push(last));
                    assert(ids =~= old_ids.push(last.id));
                    if old_ids.len() >= 2 {
                        assert(ids.take(2) =~= old_ids.take(2));
                        assert(old_ids.len() == 2 ==> old_ids.take(2) =~= old_ids);
                    }
                }
            }
            keys
        }
    }
}

proof fn lemma_none_in_column(rows: Seq<Placed>, column: usize)
    requires
        forall|i: int| 0 <= i < rows.len() ==> (#[trigger] rows[i]).column < column,
    ensures
        rows.filter(in_column(column)) == Seq::<Placed>::empty(),
    decreases rows.len(),
{
    reveal(Seq::filter);
    if rows.len() > 0 {
        assert(rows[rows.len() - 1].column < column);
        assert forall|i: int| 0 <= i < rows.drop_last().len() implies (
        #[trigger] rows.drop_last()[i]).column < column by {
            assert(rows[i].column < column);
        }
        lemma_none_in_column(rows.drop_last(), column);
    }
}

/// Panes without stored columns are put into columns by their places: one column for each that
/// was stored, from left to right, with the first two panes of it from the top down.
pub proof fn lemma_columns_of_places(panes: Seq<PaneModel>)
    ensures
        exists|rows: Seq<Placed>, keys: Seq<usize>|
            {
                &&& rows.to_multiset() == stored_places(panes).to_multiset()
                &&& by_place(rows)
                &&& #[trigger] holds_by_column(columns_from_places(panes), rows, keys)
            },
{
    assert(places(panes) =~= stored_places(panes));
    let rows = stable_sorted(places(panes));
    lemma_stable_sorted(places(panes));
    assert forall|i: int, j: int| 0 <= i < j < rows.len() implies (#[trigger] rows[i]).column < (
    #[trigger] rows[j]).column || (rows[i].column == rows[j].column && rows[i].row
        <= rows[j].row) by {
        assert(Placed::before(rows[i], rows[j]));
    }
    let keys = lemma_grouped(rows);
    assert(holds_by_column(columns_from_places(panes), rows, keys));
}

// ---------------------------------------------------------------------------------------------
// Panes that come back
// ---------------------------------------------------------------------------------------------
/// Whether a stored pane comes back: its thread is on record, and no pane before it shows it.
pub open spec fn is_to_come_back(panes: Seq<PaneModel>, db: ThreadDirectory, i: int) -> bool {
    &&& panes[i].thread is Some
    &&& trimmed(panes[i].thread->0).len() > 0
    &&& lists_text(db.open_threads@, panes[i].thread->0)
    &&& forall|j: int| 0 <= j < i ==> (#[trigger] panes[j]).thread != panes[i].thread
}

/// A stored pane as it comes back.
pub open spec fn as_restored(
    pane: PaneModel,
    db: ThreadDirectory,
    workspace: Option<Seq<char>>,
) -> PaneModel {
    PaneModel {
        workspace: resolved_workspace(db, pane.thread, pane.workspace, workspace),
        tab: tab_name(pane.tab),
        ..pane
    }
}

proof fn lemma_shown_before(
    panes: Seq<PaneModel>,
    db: ThreadDirectory,
    workspace: Option<Seq<char>>,
    thread: Seq<char>,
)
    ensures
        (exists|k: int|
            0 <= k < restored_panes(panes, db, workspace).len() && (#[trigger] restored_panes(
                panes,
                db,
                workspace,
            )[k]).thread == Some(thread)) <==> db.knows(thread) && (exists|j: int|
            0 <= j < panes.len() && (#[trigger] panes[j]).thread == Some(thread)),
    decreases panes.len(),
{
    if panes.len() > 0 {
        let rest = panes.drop_last();
        let last = panes.last();
        let before = restored_panes(rest, db, workspace);
        let now = restored_panes(panes, db, workspace);
        lemma_shown_before(rest, db, workspace, thread);
        if exists|k: int| 0 <= k < before.len() && (#[trigger] before[k]).thread == Some(thread) {
            let k = choose|k: int|
                0 <= k < before.len() && (#[trigger] before[k]).thread == Some(thread);
            assert(now[k].thread == Some(thread));
        }
        if exists|j: int| 0 <= j < rest.len() && (#[trigger] rest[j]).thread == Some(thread) {
            let j = choose|j: int|
                0 <= j < rest.len() && (#[trigger] rest[j]).thread == Some(thread);
            assert(panes[j].thread == Some(thread));
        }
        if exists|k: int| 0 <= k < now.len() && (#[trigger] now[k]).thread == Some(thread) {
            let k = choose|k: int|
                0 <= k < now.len() && (#[trigger] now[k]).thread == Some(thread);
            if k < before.len() {
                assert(before[k].thread == Some(thread));
            } else {
                assert(panes[panes.len() - 1].thread == Some(thread));
            }
        }
        if db.knows(thread) && (exists|j: int|
            0 <= j < panes.len() && (#[trigger] panes[j]).thread == Some(thread)) {
            let j = choose|j: int|
                0 <= j < panes.len() && (#[trigger] panes[j]).thread == Some(thread);
            if j < rest.len() {
                assert(rest[j].thread == Some(thread));
            } else if !(exists|k: int|
                0 <= k < before.len() && (#[trigger] before[k]).thread == Some(thread)) {
                assert(now[before.len() as int].thread == Some(thread));
            }
        }
    }
}

/// A stored pane that is to come back stands behind those that come back before it, with its
/// number, its thread, its place and its page, in its workspace; any other leaves nothing.
pub proof fn lemma_pane_restored(
    panes: Seq<PaneModel>,
    db: ThreadDirectory,
    workspace: Option<Seq<char>>,
    pane: PaneModel,
)
    ensures
        is_to_come_back(panes.push(pane), db, panes.len() as int) ==> restored_panes(
            panes.push(pane),
            db,
            workspace,
        ) == restored_panes(panes, db, workspace).push(as_restored(pane, db, workspace)),
        !is_to_come_back(panes.push(pane), db, panes.len() as int) ==> restored_panes(
            panes.push(pane),
            db,
            workspace,
        ) == restored_panes(panes, db, workspace),
        restored_panes(seq![], db, workspace) == Seq::<PaneModel>::empty(),
{
    let all = panes.push(pane);
    let n = panes.len() as int;
    assert(all.drop_last() =~= panes);
    assert(all[n] == pane);
    if pane.thread is Some {
        let thread = pane.thread->0;
        lemma_shown_before(panes, db, workspace, thread);
        if exists|j: int| 0 <= j < panes.len() && (#[trigger] panes[j]).thread == Some(thread) {
            let j = choose|j: int|
                0 <= j < panes.len() && (#[trigger] panes[j]).thread == Some(thread);
            assert(all[j].thread == all[n].thread);
        } else {
            assert forall|j: int| 0 <= j < n implies (#[trigger] all[j]).thread != all[n].thread by {
                assert(panes[j] == all[j]);
            }
        }
    }
}

/// The next pane gets the number behind the highest one, and one where there is none.
pub proof fn lemma_next_number(panes: Seq<PaneEntry>)
    ensures
        panes.len() == 0 ==> id_after(panes) == 1,
        forall|i: int| 0 <= i < panes.len() ==> (#[trigger] panes[i]).id < id_after(panes),
        panes.len() > 0 ==> id_after(panes) == 1 || exists|i: int|
            0 <= i < panes.len() && (#[trigger] panes[i]).id + 1 == id_after(panes),
    decreases panes.len(),
{
    if panes.len() > 0 {
        let rest = panes.drop_last();
        lemma_next_number(rest);
        assert(panes[panes.len() - 1] == panes.last());
        assert forall|i: int| 0 <= i < panes.len() implies (#[trigger] panes[i]).id < id_after(
            panes,
        ) by {
            if i < rest.len() {
                assert(rest[i] == panes[i]);
            }
        }
        if id_after(panes) != panes.last().id + 1 && rest.len() > 0 && id_after(rest) != 1 {
            let i = choose|i: int|
                0 <= i < rest.len() && (#[trigger] rest[i]).id + 1 == id_after(rest);
            assert(panes[i] == rest[i]);
        }
    }
}

/// A board starts with the panes it is given, the focus on the pane that had it, or on the first
/// one where that pane is gone.
pub proof fn lemma_board_started(panes: Seq<PaneEntry>, columns: Seq<Seq<u64>>, focus: u64)
    requires
        panes.len() > 0,
    ensures
        ({
            let b = started(panes, columns, focus);
            &&& b.panes == panes
            &&& b.columns == normalized(columns, entry_ids(panes))
            &&& (exists|i: int| 0 <= i < panes.len() && (#[trigger] panes[i]).id == focus)
                ==> b.focused == focus
            &&& !(exists|i: int| 0 <= i < panes.len() && (#[trigger] panes[i]).id == focus)
                ==> b.focused == panes[0].id
        }),
{
    let ids = entry_ids(panes);
    if exists|i: int| 0 <= i < panes.len() && (#[trigger] panes[i]).id == focus {
        let i = choose|i: int| 0 <= i < panes.len() && (#[trigger] panes[i]).id == focus;
        assert(ids[i] == focus);
    }
    if ids.contains(focus) {
        let k = ids.index_of(focus);
        assert(panes[k].id == focus);
    }
}

// ---------------------------------------------------------------------------------------------
// What a stored layout leaves out
// ---------------------------------------------------------------------------------------------
pub open spec fn reads_as_pane() -> spec_fn(JsonTree) -> bool {
    |t: JsonTree| pane_of(t) is Some
}

pub open spec fn reads_as_number() -> spec_fn(JsonTree) -> bool {
    |t: JsonTree| tree_u64(t) is Some
}

/// A layout without a focus has it on pane one; one without panes has none, and one without
/// columns leaves them open.
pub proof fn lemma_layout_defaults(doc: JsonTree)
    ensures
        field_u64(doc, "focusedPaneId"@) is None ==> layout_of(doc).focused == 1,
        field_u64(doc, "focusedPaneId"@) is Some ==> Some(layout_of(doc).focused) == field_u64(
            doc,
            "focusedPaneId"@,
        ),
        field_items(doc, "panes"@) is None ==> layout_of(doc).panes.len() == 0,
        field_items(doc, "columns"@) is None <==> layout_of(doc).columns is None,
{
}

/// The panes of a layout are those that can be read, in their order, and the numbers in a column
/// likewise; a column with none is left out.
pub proof fn lemma_what_is_read(items: Seq<JsonTree>, item: JsonTree)
    ensures
        panes_of(items).len() == items.filter(reads_as_pane()).len(),
        forall|i: int|
            0 <= i < panes_of(items).len() ==> Some(#[trigger] panes_of(items)[i]) == pane_of(
                items.filter(reads_as_pane())[i],
            ),
        ids_of(items).len() == items.filter(reads_as_number()).len(),
        forall|i: int|
            0 <= i < ids_of(items).len() ==> Some(#[trigger] ids_of(items)[i]) == tree_u64(
                items.filter(reads_as_number())[i],
            ),
        columns_of(items.push(item)) == if tree_items(item) is Some && ids_of(
            tree_items(item)->0,
        ).len() > 0 {
            columns_of(items).push(ids_of(tree_items(item)->0))
        } else {
            columns_of(items)
        },
    decreases items.len(),
{
    reveal(Seq::filter);
    assert(items.push(item).drop_last() =~= items);
    if items.len() > 0 {
        lemma_what_is_read(items.drop_last(), item);
    }
}

} // verus!
