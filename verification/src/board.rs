//! The panes of the multi-chat view, with their columns and the focus.
use crate::columns::normalize_columns_for_ids;
use crate::initial_layout::{resolve_workspace_path, ThreadDirectory};
use crate::layout_store::{
    is_visible, normalize_tab_name, serialize_persisted_layout_state, PersistedPane,
};
use crate::moves::{move_above_or_below, move_beside, InsertTarget};
use crate::text::same;
use vstd::prelude::*;
#[allow(unused_imports)]
use crate::columns::{
    grid, holds, lemma_normalized_twice, lemma_normalized_unchanged, normalized, well_placed,
};
#[allow(unused_imports)]
use crate::initial_layout::resolved_workspace;
#[allow(unused_imports)]
use crate::json::{json_document, json_text};
#[allow(unused_imports)]
use crate::layout_store::{
    layout_tree, pane_models, tab_name, text_of_option, visible_text, PaneModel,
};
#[allow(unused_imports)]
use crate::moves::{
    lemma_column_inserted, lemma_moved_above_or_below, lemma_moved_beside, moved_above_or_below,
    moved_beside,
};
#[allow(unused_imports)]
use crate::text::str_option;

verus! {

/// A pane: its identifier, the thread it shows, and the workspace of that thread.
#[derive(Debug)]
pub struct BoardPane {
    pub id: u64,
    pub thread_id: Option<String>,
    pub workspace_path: Option<String>,
}

/// The panes in the order in which they were opened, the columns they stand in, the focused pane,
/// and the identifier of the pane that will be opened next.
pub struct PaneBoard {
    panes: Vec<BoardPane>,
    columns: Vec<Vec<u64>>,
    focused: u64,
    next_id: u64,
}

#[verifier::ext_equal]
pub ghost struct PaneEntry {
    pub id: u64,
    pub thread: Option<Seq<char>>,
    pub workspace: Option<Seq<char>>,
}

#[verifier::ext_equal]
pub ghost struct BoardModel {
    pub panes: Seq<PaneEntry>,
    pub columns: Seq<Seq<u64>>,
    pub focused: u64,
    pub next_id: u64,
}

impl BoardPane {
    pub open spec fn entry(self) -> PaneEntry {
        PaneEntry {
            id: self.id,
            thread: text_of_option(self.thread_id),
            workspace: text_of_option(self.workspace_path),
        }
    }
}

pub open spec fn pane_entries(panes: Seq<BoardPane>) -> Seq<PaneEntry> {
    Seq::new(panes.len(), |i: int| panes[i].entry())
}

pub open spec fn entry_ids(panes: Seq<PaneEntry>) -> Seq<u64> {
    Seq::new(panes.len(), |i: int| panes[i].id)
}

impl BoardModel {
    pub open spec fn ids(self) -> Seq<u64> {
        entry_ids(self.panes)
    }

    /// Whether the board is in order: there is a pane, every pane stands in exactly one place, the
    /// focus is on a pane, and the next identifier is new.
    pub open spec fn sound(self) -> bool {
        &&& self.panes.len() > 0
        &&& well_placed(self.columns, self.ids())
        &&& self.ids().contains(self.focused)
        &&& forall|i: int| 0 <= i < self.panes.len() ==> (#[trigger] self.panes[i]).id < self.next_id
    }

    /// The pane whose thread is the active one: the focused pane, or the first.
    pub open spec fn active(self) -> Option<PaneEntry> {
        let at = pane_index(self.panes, self.focused) as int;
        if at < self.panes.len() {
            Some(self.panes[at])
        } else if self.panes.len() > 0 {
            Some(self.panes[0])
        } else {
            None
        }
    }

    /// The board with its columns brought in line with its panes.
    pub open spec fn rebuilt(self) -> BoardModel {
        BoardModel { columns: normalized(self.columns, self.ids()), ..self }
    }
}

// ---------------------------------------------------------------------------------------------
// What the operations do
// ---------------------------------------------------------------------------------------------
/// One more than the greatest identifier.
pub open spec fn id_after(panes: Seq<PaneEntry>) -> int
    decreases panes.len(),
{
    if panes.len() == 0 {
        1
    } else {
        let before = id_after(panes.drop_last());
        if panes.last().id + 1 > before {
            panes.last().id + 1
        } else {
            before
        }
    }
}

/// The board that a session starts with.
pub open spec fn started(
    panes: Seq<PaneEntry>,
    columns: Seq<Seq<u64>>,
    focus: u64,
) -> BoardModel {
    BoardModel {
        panes,
        columns: normalized(columns, entry_ids(panes)),
        focused: if entry_ids(panes).contains(focus) {
            focus
        } else if panes.len() > 0 {
            panes[0].id
        } else {
            1
        },
        next_id: id_after(panes) as u64,
    }
}

/// The board after a move, given the columns that it leads to and whether its target was found.
pub open spec fn after_move(
    b: BoardModel,
    moved: Option<(Seq<Seq<u64>>, bool)>,
    dragged: u64,
) -> BoardModel {
    match moved {
        None => b,
        Some(m) => BoardModel {
            columns: m.0,
            focused: if m.1 {
                dragged
            } else {
                b.focused
            },
            ..b
        }.rebuilt(),
    }
}

pub open spec fn moved_horizontally(
    b: BoardModel,
    dragged: u64,
    target: u64,
    after: bool,
) -> BoardModel {
    if dragged == target || !b.ids().contains(dragged) || !b.ids().contains(target) {
        b
    } else {
        after_move(b, moved_beside(b.columns, dragged, target, after), dragged)
    }
}

pub open spec fn moved_vertically(
    b: BoardModel,
    dragged: u64,
    target: u64,
    below: bool,
) -> BoardModel {
    if dragged == target {
        b
    } else {
        after_move(b, moved_above_or_below(b.columns, dragged, target, below), dragged)
    }
}

/// The identifiers of `col` but `id`.
pub open spec fn ids_without(col: Seq<u64>, id: u64) -> Seq<u64>
    decreases col.len(),
{
    if col.len() == 0 {
        Seq::empty()
    } else if col.last() == id {
        ids_without(col.drop_last(), id)
    } else {
        ids_without(col.drop_last(), id).push(col.last())
    }
}

/// The columns without `id`, and without the columns that held nothing else.
pub open spec fn columns_without(cols: Seq<Seq<u64>>, id: u64) -> Seq<Seq<u64>>
    decreases cols.len(),
{
    if cols.len() == 0 {
        Seq::empty()
    } else {
        let head = columns_without(cols.drop_last(), id);
        let rest = ids_without(cols.last(), id);
        if rest.len() == 0 {
            head
        } else {
            head.push(rest)
        }
    }
}

/// The position of the first pane with an identifier, or the number of panes.
pub open spec fn pane_index(panes: Seq<PaneEntry>, id: u64) -> nat
    decreases panes.len(),
{
    if panes.len() == 0 || panes[0].id == id {
        0
    } else {
        1 + pane_index(panes.drop_first(), id)
    }
}

/// The board without a pane. The last pane stays. A focus that was on the pane goes to the pane
/// before it, or to the first.
pub open spec fn closed(b: BoardModel, id: u64) -> BoardModel {
    let at = pane_index(b.panes, id) as int;
    if b.panes.len() <= 1 || at >= b.panes.len() {
        b
    } else {
        let panes = b.panes.remove(at);
        let ids = entry_ids(panes);
        BoardModel {
            panes,
            columns: normalized(normalized(columns_without(b.columns, id), ids), ids),
            focused: if b.focused == id {
                panes[if at > 0 {
                    at - 1
                } else {
                    0
                }].id
            } else {
                b.focused
            },
            next_id: b.next_id,
        }
    }
}

/// The position of the first pane that shows a thread, or the number of panes.
pub open spec fn thread_index(panes: Seq<PaneEntry>, thread: Seq<char>) -> nat
    decreases panes.len(),
{
    if panes.len() == 0 || panes[0].thread == Some(thread) {
        0
    } else {
        1 + thread_index(panes.drop_first(), thread)
    }
}

/// What opening a thread came to.
#[derive(Clone, Copy, Debug, PartialEq, Eq, Structural)]
pub enum OpenOutcome {
    /// No thread was named; the views are brought up to date.
    NoThread,
    /// The thread has the focus already.
    Unchanged,
    /// A pane that shows the thread has got the focus.
    Focused { pane_id: u64, workspace_changed: bool },
    /// A new pane shows the thread.
    Opened { pane_id: u64 },
}

/// The board after a thread was opened or focused, and what that came to.
pub open spec fn opened(
    b: BoardModel,
    thread: Option<Seq<char>>,
    workspace: Option<Seq<char>>,
    db: ThreadDirectory,
) -> (BoardModel, OpenOutcome) {
    match visible_text(thread) {
        None => (b, OpenOutcome::NoThread),
        Some(t) => {
            let at = thread_index(b.panes, t) as int;
            if at < b.panes.len() {
                let pane = b.panes[at];
                let changed = workspace is Some && pane.workspace != workspace;
                if pane.id == b.focused && !changed {
                    (b, OpenOutcome::Unchanged)
                } else if changed {
                    (
                        BoardModel {
                            panes: b.panes.update(at, PaneEntry { workspace, ..pane }),
                            focused: pane.id,
                            ..b
                        }.rebuilt(),
                        OpenOutcome::Focused { pane_id: pane.id, workspace_changed: true },
                    )
                } else {
                    (
                        BoardModel { focused: pane.id, ..b },
                        OpenOutcome::Focused { pane_id: pane.id, workspace_changed: false },
                    )
                }
            } else {
                (
                    BoardModel {
                        panes: b.panes.push(
                            PaneEntry {
                                id: b.next_id,
                                thread: Some(t),
                                workspace: resolved_workspace(db, Some(t), workspace, None),
                            },
                        ),
                        columns: b.columns.push(seq![b.next_id]),
                        focused: b.next_id,
                        next_id: (b.next_id + 1) as u64,
                    }.rebuilt(),
                    OpenOutcome::Opened { pane_id: b.next_id },
                )
            }
        },
    }
}

/// The board after the focused pane went to a target.
pub open spec fn focus_moved(b: BoardModel, target: InsertTarget) -> BoardModel {
    match target {
        InsertTarget::Horizontal { target_pane_id, after } => moved_horizontally(
            b,
            b.focused,
            target_pane_id,
            after,
        ),
        InsertTarget::Vertical { target_pane_id, below } => moved_vertically(
            b,
            b.focused,
            target_pane_id,
            below,
        ),
    }
}

/// The board after the chat of a pane went to another thread or workspace.
pub open spec fn shown(
    b: BoardModel,
    id: u64,
    thread: Option<Seq<char>>,
    workspace: Option<Seq<char>>,
) -> BoardModel {
    let at = pane_index(b.panes, id) as int;
    if at < b.panes.len() {
        BoardModel { panes: b.panes.update(at, PaneEntry { id, thread, workspace }), ..b }
    } else {
        b
    }
}

/// Whether opening a thread opens a pane.
pub open spec fn opens_pane(b: BoardModel, thread: Option<Seq<char>>) -> bool {
    visible_text(thread) matches Some(t) && thread_index(b.panes, t) >= b.panes.len()
}

/// Whether there is an identifier left for the pane that opening a thread opens.
pub open spec fn has_room(b: BoardModel, thread: Option<Seq<char>>) -> bool {
    opens_pane(b, thread) ==> b.next_id < u64::MAX
}

// ---------------------------------------------------------------------------------------------
// Every operation keeps the board in order
// ---------------------------------------------------------------------------------------------
proof fn lemma_id_after(panes: Seq<PaneEntry>)
    ensures
        forall|i: int| 0 <= i < panes.len() ==> (#[trigger] panes[i]).id < id_after(panes),
        id_after(panes) >= 1,
    decreases panes.len(),
{
    if panes.len() > 0 {
        lemma_id_after(panes.drop_last());
        assert forall|i: int| 0 <= i < panes.len() implies (#[trigger] panes[i]).id < id_after(
            panes,
        ) by {
            if i < panes.len() - 1 {
                assert(panes.drop_last()[i] == panes[i]);
            }
        }
    }
}

/// A session starts with a board in order, where its columns had been normalized for its panes.
pub proof fn lemma_started_sound(panes: Seq<PaneEntry>, columns: Seq<Seq<u64>>, focus: u64)
    requires
        panes.len() > 0,
        id_after(panes) <= u64::MAX,
    ensures
        started(panes, normalized(columns, entry_ids(panes)), focus).sound(),
{
    lemma_normalized_twice(columns, entry_ids(panes));
    lemma_id_after(panes);
    assert(entry_ids(panes)[0] == panes[0].id);
}

/// Rebuilding a board in order changes nothing.
pub proof fn lemma_rebuilt_unchanged(b: BoardModel)
    requires
        b.sound(),
    ensures
        b.rebuilt() == b,
{
    lemma_normalized_unchanged(b.columns, b.ids());
}

/// A move to a pane that is there focuses the dragged pane, and keeps the panes and the order of
/// the board; every other move changes nothing.
pub proof fn lemma_moved_sound(b: BoardModel, dragged: u64, target: u64, flag: bool)
    requires
        b.sound(),
    ensures
        moved_horizontally(b, dragged, target, flag).sound(),
        moved_vertically(b, dragged, target, flag).sound(),
        moved_horizontally(b, dragged, target, flag).panes == b.panes,
        moved_vertically(b, dragged, target, flag).panes == b.panes,
        b.ids().contains(dragged) && b.ids().contains(target) && dragged != target ==> {
            &&& moved_horizontally(b, dragged, target, flag).focused == dragged
            &&& moved_vertically(b, dragged, target, flag).focused == dragged
            &&& moved_beside(b.columns, dragged, target, flag) matches Some(m)
                && moved_horizontally(b, dragged, target, flag).columns == m.0
            &&& moved_above_or_below(b.columns, dragged, target, flag) matches Some(m)
                && moved_vertically(b, dragged, target, flag).columns == m.0
        },
{
    crate::moves::lemma_place_of(b.columns, dragged);
    assert(holds(b.columns, dragged) <==> b.ids().contains(dragged));
    if b.ids().contains(dragged) && dragged != target {
        lemma_moved_beside(b.columns, b.ids(), dragged, target, flag);
        lemma_moved_above_or_below(b.columns, b.ids(), dragged, target, flag);
        let m = moved_beside(b.columns, dragged, target, flag)->0;
        let v = moved_above_or_below(b.columns, dragged, target, flag)->0;
        lemma_normalized_unchanged(m.0, b.ids());
        lemma_normalized_unchanged(v.0, b.ids());
    }
}

proof fn lemma_pane_index(panes: Seq<PaneEntry>, id: u64)
    ensures
        pane_index(panes, id) <= panes.len(),
        pane_index(panes, id) < panes.len() <==> entry_ids(panes).contains(id),
        pane_index(panes, id) < panes.len() ==> panes[pane_index(panes, id) as int].id == id,
    decreases panes.len(),
{
    let ids = entry_ids(panes);
    if panes.len() > 0 && panes[0].id != id {
        let rest = panes.drop_first();
        lemma_pane_index(rest, id);
        if ids.contains(id) {
            let k = choose|k: int| 0 <= k < ids.len() && ids[k] == id;
            assert(entry_ids(rest)[k - 1] == id);
        }
        if entry_ids(rest).contains(id) {
            let k = choose|k: int| 0 <= k < rest.len() && entry_ids(rest)[k] == id;
            assert(ids[k + 1] == id);
        }
    } else if panes.len() > 0 {
        assert(ids[0] == id);
    }
}

/// Closing a pane takes that pane away and no other, never the last one, and keeps the board in
/// order.
pub proof fn lemma_closed_sound(b: BoardModel, id: u64)
    requires
        b.sound(),
    ensures
        closed(b, id).sound(),
        b.panes.len() > 1 && b.ids().contains(id) ==> closed(b, id).panes == b.panes.remove(
            pane_index(b.panes, id) as int,
        ),
        b.panes.len() == 1 || !b.ids().contains(id) ==> closed(b, id) == b,
        b.focused != id ==> closed(b, id).focused == b.focused,
{
    lemma_pane_index(b.panes, id);
    let at = pane_index(b.panes, id) as int;
    if b.panes.len() > 1 && at < b.panes.len() {
        let c = closed(b, id);
        let ids = entry_ids(c.panes);
        lemma_normalized_twice(columns_without(b.columns, id), ids);
        assert forall|i: int| 0 <= i < c.panes.len() implies (#[trigger] c.panes[i]).id
            < c.next_id by {
            let k = if i < at {
                i
            } else {
                i + 1
            };
            assert(c.panes[i] == b.panes[k]);
        }
        if b.focused == id {
            let k = if at > 0 {
                at - 1
            } else {
                0
            };
            assert(ids[k] == c.focused);
        } else {
            let k = choose|k: int| 0 <= k < b.ids().len() && b.ids()[k] == b.focused;
            assert(k != at);
            let j = if k < at {
                k
            } else {
                k - 1
            };
            assert(ids[j] == b.focused);
        }
    }
}

proof fn lemma_thread_index(panes: Seq<PaneEntry>, thread: Seq<char>)
    ensures
        thread_index(panes, thread) <= panes.len(),
        thread_index(panes, thread) < panes.len() ==> panes[thread_index(
            panes,
            thread,
        ) as int].thread == Some(thread),
    decreases panes.len(),
{
    if panes.len() > 0 && panes[0].thread != Some(thread) {
        lemma_thread_index(panes.drop_first(), thread);
    }
}

/// Opening a thread keeps the board in order and loses no pane; a thread that is not blank is
/// shown afterwards by a pane that has the focus.
pub proof fn lemma_opened_sound(
    b: BoardModel,
    thread: Option<Seq<char>>,
    workspace: Option<Seq<char>>,
    db: ThreadDirectory,
)
    requires
        b.sound(),
        has_room(b, thread),
    ensures
        ({
            let after = opened(b, thread, workspace, db).0;
            &&& after.sound()
            &&& forall|id: u64| b.ids().contains(id) ==> #[trigger] after.ids().contains(id)
            &&& visible_text(thread) matches Some(t) ==> exists|i: int|
                0 <= i < after.panes.len() && (#[trigger] after.panes[i]).thread == Some(t)
                    && after.panes[i].id == after.focused
        }),
{
    let after = opened(b, thread, workspace, db).0;
    match visible_text(thread) {
        None => {},
        Some(t) => {
            lemma_thread_index(b.panes, t);
            let at = thread_index(b.panes, t) as int;
            if at < b.panes.len() {
                let pane = b.panes[at];
                assert(b.ids()[at] == pane.id);
                assert(after.ids() =~= b.ids());
                lemma_normalized_unchanged(b.columns, b.ids());
                assert(after.panes[at].thread == Some(t) && after.panes[at].id == after.focused);
                assert forall|i: int| 0 <= i < after.panes.len() implies (
                #[trigger] after.panes[i]).id < after.next_id by {
                    assert(b.panes[i].id < b.next_id);
                }
            } else {
                let id = b.next_id;
                assert(!holds(b.columns, id)) by {
                    if b.ids().contains(id) {
                        let k = choose|k: int| 0 <= k < b.ids().len() && b.ids()[k] == id;
                        assert(b.panes[k].id == id);
                    }
                }
                assert(b.columns.push(seq![id]) =~= b.columns.insert(
                    b.columns.len() as int,
                    seq![id],
                ));
                lemma_column_inserted(b.columns, b.columns.len() as int, id);
                assert(after.ids() =~= b.ids().push(id));
                let cols = b.columns.push(seq![id]);
                assert forall|x: u64| #[trigger] holds(cols, x) <==> after.ids().contains(x) by {
                    assert(holds(cols, x) <==> holds(b.columns, x) || x == id);
                    assert(holds(b.columns, x) <==> b.ids().contains(x));
                    lemma_push_id(b.ids(), id, x);
                }
                assert(well_placed(cols, after.ids()));
                lemma_normalized_unchanged(cols, after.ids());
                lemma_push_id(b.ids(), id, id);
                assert forall|x: u64| b.ids().contains(x) implies #[trigger] after.ids().contains(
                    x,
                ) by {
                    lemma_push_id(b.ids(), id, x);
                }
                assert forall|i: int| 0 <= i < after.panes.len() implies (
                #[trigger] after.panes[i]).id < after.next_id by {
                    if i < b.panes.len() {
                        assert(b.panes[i].id < b.next_id);
                    }
                }
                assert(after.panes[b.panes.len() as int].id == after.focused);
            }
        },
    }
}

proof fn lemma_push_id(s: Seq<u64>, id: u64, x: u64)
    ensures
        s.push(id).contains(x) <==> s.contains(x) || x == id,
{
    if s.contains(x) {
        let k = choose|k: int| 0 <= k < s.len() && s[k] == x;
        assert(s.push(id)[k] == x);
    }
    assert(s.push(id)[s.len() as int] == id);
}

/// Giving the focus to a pane that is there keeps the board in order.
pub proof fn lemma_focused_sound(b: BoardModel, id: u64)
    requires
        b.sound(),
        b.ids().contains(id),
    ensures
        (BoardModel { focused: id, ..b }).sound(),
{
    assert(BoardModel { focused: id, ..b }.ids() =~= b.ids());
}

/// What a pane shows can change without a change to the columns, the focus or the order of the
/// board.
pub proof fn lemma_shown_sound(
    b: BoardModel,
    id: u64,
    thread: Option<Seq<char>>,
    workspace: Option<Seq<char>>,
)
    requires
        b.sound(),
    ensures
        shown(b, id, thread, workspace).sound(),
        shown(b, id, thread, workspace).ids() == b.ids(),
        shown(b, id, thread, workspace).columns == b.columns,
        shown(b, id, thread, workspace).focused == b.focused,
{
    let after = shown(b, id, thread, workspace);
    lemma_pane_index(b.panes, id);
    assert(after.ids() =~= b.ids());
    assert forall|i: int| 0 <= i < after.panes.len() implies (#[trigger] after.panes[i]).id
        < after.next_id by {
        assert(b.panes[i].id < b.next_id);
    }
}

/// Dropping a thread at a target keeps the board in order and loses no pane.
pub proof fn lemma_placed_sound(
    b: BoardModel,
    thread: Option<Seq<char>>,
    workspace: Option<Seq<char>>,
    db: ThreadDirectory,
    target: InsertTarget,
)
    requires
        b.sound(),
        has_room(b, thread),
    ensures
        focus_moved(opened(b, thread, workspace, db).0, target).sound(),
        focus_moved(opened(b, thread, workspace, db).0, target).panes == opened(
            b,
            thread,
            workspace,
            db,
        ).0.panes,
{
    lemma_opened_sound(b, thread, workspace, db);
    let o = opened(b, thread, workspace, db).0;
    match target {
        InsertTarget::Horizontal { target_pane_id, after } => {
            lemma_moved_sound(o, o.focused, target_pane_id, after);
        },
        InsertTarget::Vertical { target_pane_id, below } => {
            lemma_moved_sound(o, o.focused, target_pane_id, below);
        },
    }
}

// ---------------------------------------------------------------------------------------------
// The operations
// ---------------------------------------------------------------------------------------------
fn columns_without_id(columns: &Vec<Vec<u64>>, id: u64) -> (out: Vec<Vec<u64>>)
    ensures
        grid(out@) == columns_without(grid(columns@), id),
{
    let ghost cols = grid(columns@);
    let mut out: Vec<Vec<u64>> = Vec::new();
    let mut c: usize = 0;
    assert(cols.take(0) =~= Seq::empty());
    assert(grid(out@) =~= Seq::empty());
    while c < columns.len()
        invariant
            c <= columns@.len(),
            cols == grid(columns@),
            grid(out@) == columns_without(cols.take(c as int), id),
        decreases columns.len() - c,
    {
        assert(cols.take(c + 1).drop_last() =~= cols.take(c as int));
        let col = &columns[c];
        let mut rest: Vec<u64> = Vec::new();
        let mut r: usize = 0;
        assert(col@.take(0) =~= Seq::empty());
        while r < col.len()
            invariant
                r <= col@.len(),
                rest@ == ids_without(col@.take(r as int), id),
            decreases col.len() - r,
        {
            assert(col@.take(r + 1).drop_last() =~= col@.take(r as int));
            if col[r] != id {
                rest.push(col[r]);
            }
            r += 1;
        }
        assert(col@.take(r as int) =~= col@);
        if rest.len() > 0 {
            let ghost before = out@;
            out.push(rest);
            assert(grid(out@) =~= grid(before).push(rest@));
        }
        c += 1;
    }
    assert(cols.take(c as int) =~= cols);
    out
}

fn ids_of_panes(panes: &Vec<BoardPane>) -> (ids: Vec<u64>)
    ensures
        ids@ == entry_ids(pane_entries(panes@)),
{
    let mut ids: Vec<u64> = Vec::new();
    let mut i: usize = 0;
    while i < panes.len()
        invariant
            i <= panes@.len(),
            ids@ == entry_ids(pane_entries(panes@)).take(i as int),
        decreases panes.len() - i,
    {
        ids.push(panes[i].id);
        i += 1;
        assert(ids@ =~= entry_ids(pane_entries(panes@)).take(i as int));
    }
    assert(ids@ =~= entry_ids(pane_entries(panes@)));
    ids
}

fn index_of_pane(panes: &Vec<BoardPane>, id: u64) -> (at: usize)
    ensures
        at == pane_index(pane_entries(panes@), id),
        at <= panes@.len(),
{
    let ghost all = pane_entries(panes@);
    let mut i: usize = 0;
    assert(all.skip(0) =~= all);
    while i < panes.len() && panes[i].id != id
        invariant
            i <= panes@.len(),
            all == pane_entries(panes@),
            pane_index(all, id) == i + pane_index(all.skip(i as int), id),
        decreases panes.len() - i,
    {
        assert(all.skip(i as int).drop_first() =~= all.skip(i + 1));
        i += 1;
    }
    i
}

fn index_of_thread(panes: &Vec<BoardPane>, thread: &str) -> (at: usize)
    ensures
        at == thread_index(pane_entries(panes@), thread@),
        at <= panes@.len(),
{
    let ghost all = pane_entries(panes@);
    let mut i: usize = 0;
    assert(all.skip(0) =~= all);
    while i < panes.len()
        invariant
            i <= panes@.len(),
            all == pane_entries(panes@),
            thread_index(all, thread@) == i + thread_index(all.skip(i as int), thread@),
        decreases panes.len() - i,
    {
        assert(all.skip(i as int).drop_first() =~= all.skip(i + 1));
        assert(all.skip(i as int)[0].thread == text_of_option(panes@[i as int].thread_id));
        match &panes[i].thread_id {
            Some(t) => {
                if same(t.as_str(), thread) {
                    return i;
                }
            },
            None => {},
        }
        i += 1;
    }
    i
}

impl PaneBoard {
    pub closed spec fn model(self) -> BoardModel {
        BoardModel {
            panes: pane_entries(self.panes@),
            columns: grid(self.columns@),
            focused: self.focused,
            next_id: self.next_id,
        }
    }

    /// The board that a session starts with.
    pub fn start(panes: Vec<BoardPane>, columns: Vec<Vec<u64>>, restored_focus: u64) -> (b: PaneBoard)
        requires
            id_after(pane_entries(panes@)) <= u64::MAX,
        ensures
            b.model() == started(pane_entries(panes@), grid(columns@), restored_focus),
    {
        let ghost all = pane_entries(panes@);
        let ids = ids_of_panes(&panes);
        let columns = normalize_columns_for_ids(&columns, &ids);
        let at = index_of_pane(&panes, restored_focus);
        proof {
            lemma_pane_index(all, restored_focus);
        }
        let focused: u64 = if at < panes.len() {
            restored_focus
        } else if panes.len() > 0 {
            panes[0].id
        } else {
            1
        };
        let mut next_id: u64 = 1;
        let mut i: usize = 0;
        assert(all.take(0) =~= Seq::empty());
        while i < panes.len()
            invariant
                i <= panes@.len(),
                all == pane_entries(panes@),
                id_after(all) <= u64::MAX,
                next_id == id_after(all.take(i as int)),
            decreases panes.len() - i,
        {
            assert(all.take(i + 1).drop_last() =~= all.take(i as int));
            proof {
                lemma_id_after(all);
            }
            assert(all[i as int].id < id_after(all));
            let id = panes[i].id;
            if id + 1 > next_id {
                next_id = id + 1;
            }
            i += 1;
        }
        assert(all.take(i as int) =~= all);
        PaneBoard { panes, columns, focused, next_id }
    }

    fn rebuild(&mut self)
        ensures
            final(self).model() == old(self).model().rebuilt(),
    {
        let ids = ids_of_panes(&self.panes);
        self.columns = normalize_columns_for_ids(&self.columns, &ids);
    }

    /// Moves a pane into a column of its own beside another pane. Says whether anything changed.
    pub fn move_pane_horizontal(&mut self, dragged_id: u64, target_id: u64, insert_after: bool) -> (
    changed: bool)
        ensures
            final(self).model() == moved_horizontally(
                old(self).model(),
                dragged_id,
                target_id,
                insert_after,
            ),
            changed == (dragged_id != target_id && old(self).model().ids().contains(dragged_id)
                && old(self).model().ids().contains(target_id) && moved_beside(
                old(self).model().columns,
                dragged_id,
                target_id,
                insert_after,
            ) is Some),
    {
        proof {
            lemma_pane_index(self.model().panes, dragged_id);
            lemma_pane_index(self.model().panes, target_id);
        }
        if dragged_id == target_id || index_of_pane(&self.panes, dragged_id) >= self.panes.len()
            || index_of_pane(&self.panes, target_id) >= self.panes.len() {
            return false;
        }
        match move_beside(&mut self.columns, dragged_id, target_id, insert_after) {
            None => false,
            Some(found) => {
                if found {
                    self.focused = dragged_id;
                }
                self.rebuild();
                true
            },
        }
    }

    /// Moves a pane above or below another pane. Says whether anything changed.
    pub fn move_pane_vertical(&mut self, dragged_id: u64, target_id: u64, below: bool) -> (changed:
        bool)
        ensures
            final(self).model() == moved_vertically(
                old(self).model(),
                dragged_id,
                target_id,
                below,
            ),
            changed == (dragged_id != target_id && moved_above_or_below(
                old(self).model().columns,
                dragged_id,
                target_id,
                below,
            ) is Some),
    {
        if dragged_id == target_id {
            return false;
        }
        match move_above_or_below(&mut self.columns, dragged_id, target_id, below) {
            None => false,
            Some(found) => {
                if found {
                    self.focused = dragged_id;
                }
                self.rebuild();
                true
            },
        }
    }

    /// Closes a pane. Says whether it was there and could be closed.
    pub fn close_pane(&mut self, pane_id: u64) -> (done: bool)
        ensures
            final(self).model() == closed(old(self).model(), pane_id),
            done == (old(self).model().panes.len() > 1 && old(self).model().ids().contains(pane_id)),
    {
        let ghost before = self.model();
        proof {
            lemma_pane_index(before.panes, pane_id);
        }
        let at = index_of_pane(&self.panes, pane_id);
        if self.panes.len() <= 1 || at >= self.panes.len() {
            return false;
        }
        self.panes.remove(at);
        assert(pane_entries(self.panes@) =~= before.panes.remove(at as int));
        let ids = ids_of_panes(&self.panes);
        let rest = columns_without_id(&self.columns, pane_id);
        let once = normalize_columns_for_ids(&rest, &ids);
        self.columns = normalize_columns_for_ids(&once, &ids);
        if self.focused == pane_id {
            let next: usize = if at > 0 {
                at - 1
            } else {
                0
            };
            assert(pane_entries(self.panes@)[next as int].id == self.panes@[next as int].id);
            self.focused = self.panes[next].id;
        }
        true
    }

    /// The identifier of the pane that opening a thread opens; none where it opens no pane.
    pub fn pane_to_open(&self, codex_thread: Option<&str>) -> (r: Option<u64>)
        ensures
            match r {
                Some(id) => opens_pane(self.model(), str_option(codex_thread)) && id
                    == self.model().next_id,
                None => !opens_pane(self.model(), str_option(codex_thread)),
            },
    {
        match codex_thread {
            Some(t) => {
                if is_visible(t) && index_of_thread(&self.panes, t) >= self.panes.len() {
                    Some(self.next_id)
                } else {
                    None
                }
            },
            None => None,
        }
    }

    /// Focuses the pane that shows a thread, or opens one for it.
    pub fn open_or_focus_thread(
        &mut self,
        codex_thread: Option<String>,
        workspace_path: Option<String>,
        db: &ThreadDirectory,
    ) -> (outcome: OpenOutcome)
        requires
            has_room(old(self).model(), text_of_option(codex_thread)),
        ensures
            (final(self).model(), outcome) == opened(
                old(self).model(),
                text_of_option(codex_thread),
                text_of_option(workspace_path),
                *db,
            ),
    {
        let ghost before = self.model();
        let thread = match codex_thread {
            Some(t) => {
                if !is_visible(t.as_str()) {
                    return OpenOutcome::NoThread;
                }
                t
            },
            None => return OpenOutcome::NoThread,
        };
        let at = index_of_thread(&self.panes, thread.as_str());
        if at < self.panes.len() {
            let pane_id = self.panes[at].id;
            let was_focused = pane_id == self.focused;
            match workspace_path {
                Some(next) => {
                    let same_path = match &self.panes[at].workspace_path {
                        Some(path) => same(path.as_str(), next.as_str()),
                        None => false,
                    };
                    if !same_path {
                        let mut pane = self.panes.remove(at);
                        let ghost old_entry = pane.entry();
                        pane.workspace_path = Some(next);
                        self.panes.insert(at, pane);
                        assert(pane_entries(self.panes@) =~= before.panes.update(
                            at as int,
                            PaneEntry { workspace: Some(next@), ..old_entry },
                        ));
                        self.focused = pane_id;
                        self.rebuild();
                        return OpenOutcome::Focused { pane_id, workspace_changed: true };
                    }
                },
                None => {},
            }
            if was_focused {
                return OpenOutcome::Unchanged;
            }
            self.focused = pane_id;
            return OpenOutcome::Focused { pane_id, workspace_changed: false };
        }
        let pane_id = self.next_id;
        let workspace = resolve_workspace_path(db, Some(thread.as_str()), workspace_path, None);
        let pane = BoardPane { id: pane_id, thread_id: Some(thread), workspace_path: workspace };
        self.panes.push(pane);
        assert(pane_entries(self.panes@) =~= before.panes.push(pane.entry()));
        let mut column: Vec<u64> = Vec::new();
        column.push(pane_id);
        assert(column@ =~= seq![pane_id]);
        self.columns.push(column);
        assert(grid(self.columns@) =~= before.columns.push(seq![pane_id]));
        self.focused = pane_id;
        self.next_id = pane_id + 1;
        self.rebuild();
        OpenOutcome::Opened { pane_id }
    }

    /// Opens or focuses a thread, and moves its pane to a target.
    pub fn place_thread_at_target(
        &mut self,
        codex_thread: Option<String>,
        workspace_path: Option<String>,
        db: &ThreadDirectory,
        target: InsertTarget,
    ) -> (outcome: OpenOutcome)
        requires
            has_room(old(self).model(), text_of_option(codex_thread)),
        ensures
            ({
                let o = opened(
                    old(self).model(),
                    text_of_option(codex_thread),
                    text_of_option(workspace_path),
                    *db,
                );
                outcome == o.1 && final(self).model() == focus_moved(o.0, target)
            }),
    {
        let outcome = self.open_or_focus_thread(codex_thread, workspace_path, db);
        let moved_id = self.focused;
        match target {
            InsertTarget::Horizontal { target_pane_id, after } => {
                self.move_pane_horizontal(moved_id, target_pane_id, after);
            },
            InsertTarget::Vertical { target_pane_id, below } => {
                self.move_pane_vertical(moved_id, target_pane_id, below);
            },
        }
        outcome
    }

    /// Notes what the chat of a pane shows.
    pub fn show_in_pane(
        &mut self,
        pane_id: u64,
        thread_id: Option<String>,
        workspace_path: Option<String>,
    )
        ensures
            final(self).model() == shown(
                old(self).model(),
                pane_id,
                text_of_option(thread_id),
                text_of_option(workspace_path),
            ),
    {
        let ghost before = self.model();
        let at = index_of_pane(&self.panes, pane_id);
        if at < self.panes.len() {
            let pane = BoardPane { id: pane_id, thread_id, workspace_path };
            self.panes.set(at, pane);
            assert(pane_entries(self.panes@) =~= before.panes.update(at as int, pane.entry()));
        }
    }

    /// Gives a pane the focus.
    pub fn focus_pane(&mut self, pane_id: u64) -> (changed: bool)
        ensures
            final(self).model() == (BoardModel { focused: pane_id, ..old(self).model() }),
            changed == (old(self).model().focused != pane_id),
    {
        let changed = self.focused != pane_id;
        self.focused = pane_id;
        changed
    }

    /// The pane whose thread is the active one: the focused pane, or the first.
    pub fn active_pane(&self) -> (r: Option<&BoardPane>)
        ensures
            match r {
                Some(p) => self.model().active() == Some(p.entry()),
                None => self.model().active() is None,
            },
    {
        if self.panes.len() == 0 {
            return None;
        }
        let at = index_of_pane(&self.panes, self.focused);
        if at < self.panes.len() {
            Some(&self.panes[at])
        } else {
            Some(&self.panes[0])
        }
    }

    /// Whether panes show a button to close them: not where there is only one.
    pub fn can_close(&self) -> (r: bool)
        ensures
            r == (self.model().panes.len() > 1),
    {
        self.panes.len() > 1
    }

    pub fn columns(&self) -> (columns: &Vec<Vec<u64>>)
        ensures
            grid(columns@) == self.model().columns,
    {
        &self.columns
    }

    pub fn panes(&self) -> (panes: &Vec<BoardPane>)
        ensures
            pane_entries(panes@) == self.model().panes,
    {
        &self.panes
    }

    pub fn focused_pane_id(&self) -> (id: u64)
        ensures
            id == self.model().focused,
    {
        self.focused
    }

    /// The text under which the board is stored, given the tab that each pane shows.
    pub fn serialize_persisted_layout(&self, tabs: &Vec<String>) -> (raw: String)
        requires
            tabs@.len() == self.model().panes.len(),
        ensures
            raw@ == json_text(
                layout_tree(
                    stored_models(self.model(), tabs.deep_view()),
                    self.model().columns,
                    self.model().focused,
                ),
            ),
            json_document(raw@) == Some(
                layout_tree(
                    stored_models(self.model(), tabs.deep_view()),
                    self.model().columns,
                    self.model().focused,
                ),
            ),
    {
        let mut list: Vec<PersistedPane> = Vec::new();
        let mut i: usize = 0;
        let ghost models = stored_models(self.model(), tabs.deep_view());
        while i < self.panes.len()
            invariant
                i <= self.panes@.len(),
                tabs@.len() == self.panes@.len(),
                models == stored_models(self.model(), tabs.deep_view()),
                pane_models(list@) == models.take(i as int),
            decreases self.panes.len() - i,
        {
            let pane = &self.panes[i];
            let place = last_position(&self.columns, pane.id);
            let stored = PersistedPane {
                id: pane.id,
                codex_thread_id: pane.thread_id.clone(),
                workspace_path: pane.workspace_path.clone(),
                tab: normalize_tab_name(tabs[i].as_str()),
                column: Some(place.0),
                row: Some(place.1),
            };
            let ghost before = list@;
            list.push(stored);
            i += 1;
            assert(pane_models(list@) =~= pane_models(before).push(stored.model()));
            assert(pane_models(list@) =~= models.take(i as int));
        }
        assert(pane_models(list@) =~= models);
        serialize_persisted_layout_state(&list, &self.columns, self.focused)
    }
}

/// The last row of `col` that holds `id`.
pub open spec fn last_row(col: Seq<u64>, id: u64) -> Option<int>
    decreases col.len(),
{
    if col.len() == 0 {
        None
    } else if col.last() == id {
        Some(col.len() - 1)
    } else {
        last_row(col.drop_last(), id)
    }
}

/// The last place that holds `id`, or the first place of all where none does.
pub open spec fn last_place(cols: Seq<Seq<u64>>, id: u64) -> (int, int)
    decreases cols.len(),
{
    if cols.len() == 0 {
        (0, 0)
    } else {
        match last_row(cols.last(), id) {
            Some(row) => (cols.len() - 1, row),
            None => last_place(cols.drop_last(), id),
        }
    }
}

/// The panes of a board as they are stored, given the tab that each shows.
pub open spec fn stored_models(b: BoardModel, tabs: Seq<Seq<char>>) -> Seq<PaneModel> {
    Seq::new(
        b.panes.len(),
        |i: int|
            PaneModel {
                id: b.panes[i].id,
                thread: b.panes[i].thread,
                workspace: b.panes[i].workspace,
                tab: tab_name(tabs[i]),
                column: Some(last_place(b.columns, b.panes[i].id).0 as usize),
                row: Some(last_place(b.columns, b.panes[i].id).1 as usize),
            },
    )
}

fn last_position(columns: &Vec<Vec<u64>>, id: u64) -> (place: (usize, usize))
    ensures
        (place.0 as int, place.1 as int) == last_place(grid(columns@), id),
{
    let ghost cols = grid(columns@);
    let mut c: usize = columns.len();
    assert(cols.take(c as int) =~= cols);
    while c > 0
        invariant
            c <= columns@.len(),
            cols == grid(columns@),
            last_place(cols, id) == last_place(cols.take(c as int), id),
        decreases c,
    {
        assert(cols.take(c as int).drop_last() =~= cols.take(c - 1));
        let col = &columns[c - 1];
        let mut r: usize = col.len();
        assert(col@.take(r as int) =~= col@);
        while r > 0
            invariant
                0 < c <= columns@.len(),
                r <= col@.len(),
                cols == grid(columns@),
                col@ == cols.take(c as int).last(),
                last_place(cols, id) == last_place(cols.take(c as int), id),
                last_row(col@, id) == last_row(col@.take(r as int), id),
            decreases r,
        {
            assert(col@.take(r as int).drop_last() =~= col@.take(r - 1));
            if col[r - 1] == id {
                return (c - 1, r - 1);
            }
            r -= 1;
        }
        c -= 1;
    }
    (0, 0)
}

/// Whether a layout differs from the one that was saved last.
pub fn layout_needs_saving(last_saved: Option<&str>, serialized: &str) -> (r: bool)
    ensures
        r == (match last_saved {
            Some(raw) => raw@ != serialized@,
            None => true,
        }),
{
    match last_saved {
        Some(raw) => !same(raw, serialized),
        None => true,
    }
}

} // verus!
