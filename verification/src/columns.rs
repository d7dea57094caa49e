//! The columns of panes of the multi-chat view.
//!
//! The panes stand in columns, from left to right, with one or two panes in a column. A column is
//! the list of its pane identifiers, from top to bottom.
use vstd::prelude::*;

verus! {

/// The identifiers that columns hold.
pub open spec fn grid(columns: Seq<Vec<u64>>) -> Seq<Seq<u64>> {
    Seq::new(columns.len(), |i: int| columns[i]@)
}

/// Whether some column holds `id`.
pub open spec fn holds(cols: Seq<Seq<u64>>, id: u64) -> bool {
    exists|c: int| 0 <= c < cols.len() && (#[trigger] cols[c]).contains(id)
}

/// Whether no identifier stands in two places.
pub open spec fn placed_once(cols: Seq<Seq<u64>>) -> bool {
    &&& forall|c: int| 0 <= c < cols.len() ==> (#[trigger] cols[c]).no_duplicates()
    &&& forall|c: int, d: int, id: u64|
        #![trigger cols[c].contains(id), cols[d].contains(id)]
        0 <= c < cols.len() && 0 <= d < cols.len() && cols[c].contains(id) && cols[d].contains(id)
            ==> c == d
}

/// Whether each column holds one or two identifiers.
pub open spec fn one_or_two(cols: Seq<Seq<u64>>) -> bool {
    forall|c: int| 0 <= c < cols.len() ==> 1 <= (#[trigger] cols[c]).len() <= 2
}

/// Whether the columns place exactly the panes `ids`, each once.
pub open spec fn well_placed(cols: Seq<Seq<u64>>, ids: Seq<u64>) -> bool {
    &&& one_or_two(cols)
    &&& placed_once(cols)
    &&& forall|id: u64| #[trigger] holds(cols, id) <==> ids.contains(id)
}

// ---------------------------------------------------------------------------------------------
// Normalizing
// ---------------------------------------------------------------------------------------------
/// The identifiers of `col` that are in `ids` and not yet seen, each at its first place.
pub open spec fn kept_ids(col: Seq<u64>, ids: Seq<u64>, seen: Seq<u64>) -> Seq<u64>
    decreases col.len(),
{
    if col.len() == 0 {
        Seq::empty()
    } else {
        let head = kept_ids(col.drop_last(), ids, seen);
        if ids.contains(col.last()) && !seen.contains(col.last()) && !head.contains(col.last()) {
            head.push(col.last())
        } else {
            head
        }
    }
}

/// The identifiers seen in `cols`, in the order in which they are met.
pub open spec fn seen_ids(cols: Seq<Seq<u64>>, ids: Seq<u64>) -> Seq<u64>
    decreases cols.len(),
{
    if cols.len() == 0 {
        Seq::empty()
    } else {
        let seen = seen_ids(cols.drop_last(), ids);
        seen + kept_ids(cols.last(), ids, seen)
    }
}

pub open spec fn first_two(col: Seq<u64>) -> Seq<u64> {
    if col.len() > 2 {
        col.take(2)
    } else {
        col
    }
}

/// What is left of `cols`: of each column the first two identifiers that count, and no column
/// without one.
pub open spec fn kept_columns(cols: Seq<Seq<u64>>, ids: Seq<u64>) -> Seq<Seq<u64>>
    decreases cols.len(),
{
    if cols.len() == 0 {
        Seq::empty()
    } else {
        let head = kept_columns(cols.drop_last(), ids);
        let kept = kept_ids(cols.last(), ids, seen_ids(cols.drop_last(), ids));
        if kept.len() == 0 {
            head
        } else {
            head.push(first_two(kept))
        }
    }
}

/// One column for each identifier.
pub open spec fn single_columns(ids: Seq<u64>) -> Seq<Seq<u64>> {
    Seq::new(ids.len(), |i: int| seq![ids[i]])
}

/// `cols` brought in line with the panes `ids`: unknown and repeated identifiers leave, columns
/// are cut to two, and a pane that no column has named gets a column of its own at the right.
pub open spec fn normalized(cols: Seq<Seq<u64>>, ids: Seq<u64>) -> Seq<Seq<u64>> {
    kept_columns(cols, ids) + single_columns(kept_ids(ids, ids, seen_ids(cols, ids)))
}

/// Whether normalizing cuts nothing off: no column names more than two panes that count.
pub open spec fn cuts_nothing(cols: Seq<Seq<u64>>, ids: Seq<u64>) -> bool {
    forall|i: int|
        0 <= i < cols.len() ==> kept_ids(#[trigger] cols[i], ids, seen_ids(cols.take(i), ids)).len()
            <= 2
}

pub proof fn lemma_kept_ids(col: Seq<u64>, ids: Seq<u64>, seen: Seq<u64>)
    ensures
        kept_ids(col, ids, seen).no_duplicates(),
        forall|id: u64| #[trigger]
            kept_ids(col, ids, seen).contains(id) <==> col.contains(id) && ids.contains(id)
                && !seen.contains(id),
        kept_ids(col, ids, seen).len() <= col.len(),
    decreases col.len(),
{
    if col.len() > 0 {
        let rest = col.drop_last();
        let x = col.last();
        lemma_kept_ids(rest, ids, seen);
        let head = kept_ids(rest, ids, seen);
        assert forall|id: u64| #[trigger] kept_ids(col, ids, seen).contains(id) <==> col.contains(id)
            && ids.contains(id) && !seen.contains(id) by {
            assert(col =~= rest.push(x));
            assert(col.contains(id) <==> rest.contains(id) || id == x) by {
                if rest.contains(id) {
                    let k = choose|k: int| 0 <= k < rest.len() && rest[k] == id;
                    assert(col[k] == id);
                }
                if id == x {
                    assert(col[col.len() - 1] == id);
                }
            }
            assert(head.push(x).contains(id) <==> head.contains(id) || id == x) by {
                if head.contains(id) {
                    let k = choose|k: int| 0 <= k < head.len() && head[k] == id;
                    assert(head.push(x)[k] == id);
                }
                assert(head.push(x)[head.len() as int] == x);
            }
        }
    }
}

proof fn lemma_seen_ids(cols: Seq<Seq<u64>>, ids: Seq<u64>)
    ensures
        forall|id: u64| #[trigger] seen_ids(cols, ids).contains(id) <==> holds(cols, id)
            && ids.contains(id),
    decreases cols.len(),
{
    if cols.len() > 0 {
        let rest = cols.drop_last();
        lemma_seen_ids(rest, ids);
        let seen = seen_ids(rest, ids);
        lemma_kept_ids(cols.last(), ids, seen);
        let kept = kept_ids(cols.last(), ids, seen);
        assert forall|id: u64| #[trigger] seen_ids(cols, ids).contains(id) <==> holds(cols, id)
            && ids.contains(id) by {
            lemma_concat_contains(seen, kept, id);
            lemma_holds_split(cols, id);
        }
    } else {
        assert forall|id: u64| !(#[trigger] holds(cols, id)) by {}
    }
}

proof fn lemma_concat_contains(a: Seq<u64>, b: Seq<u64>, id: u64)
    ensures
        (a + b).contains(id) <==> a.contains(id) || b.contains(id),
{
    if a.contains(id) {
        let k = choose|k: int| 0 <= k < a.len() && a[k] == id;
        assert((a + b)[k] == id);
    }
    if b.contains(id) {
        let k = choose|k: int| 0 <= k < b.len() && b[k] == id;
        assert((a + b)[a.len() + k] == id);
    }
}

/// The last column and the ones before it hold what all of them hold.
proof fn lemma_holds_split(cols: Seq<Seq<u64>>, id: u64)
    requires
        cols.len() > 0,
    ensures
        holds(cols, id) <==> holds(cols.drop_last(), id) || cols.last().contains(id),
{
    let rest = cols.drop_last();
    if holds(rest, id) {
        let c = choose|c: int| 0 <= c < rest.len() && (#[trigger] rest[c]).contains(id);
        assert(cols[c].contains(id));
    }
    if cols.last().contains(id) {
        assert(cols[cols.len() - 1].contains(id));
    }
    if holds(cols, id) {
        let c = choose|c: int| 0 <= c < cols.len() && (#[trigger] cols[c]).contains(id);
        if c < rest.len() {
            assert(rest[c].contains(id));
        }
    }
}

proof fn lemma_holds_concat(a: Seq<Seq<u64>>, b: Seq<Seq<u64>>, id: u64)
    ensures
        holds(a + b, id) <==> holds(a, id) || holds(b, id),
{
    if holds(a, id) {
        let c = choose|c: int| 0 <= c < a.len() && (#[trigger] a[c]).contains(id);
        assert((a + b)[c].contains(id));
    }
    if holds(b, id) {
        let c = choose|c: int| 0 <= c < b.len() && (#[trigger] b[c]).contains(id);
        assert((a + b)[a.len() + c].contains(id));
    }
    if holds(a + b, id) {
        let c = choose|c: int| 0 <= c < (a + b).len() && (#[trigger] (a + b)[c]).contains(id);
        if c < a.len() {
            assert(a[c].contains(id));
        } else {
            assert(b[c - a.len()].contains(id));
        }
    }
}

/// Columns that share no identifier, each group placed once, are placed once together.
proof fn lemma_placed_concat(a: Seq<Seq<u64>>, b: Seq<Seq<u64>>)
    requires
        placed_once(a),
        placed_once(b),
        forall|id: u64| !(#[trigger] holds(a, id) && #[trigger] holds(b, id)),
    ensures
        placed_once(a + b),
{
    let all = a + b;
    assert forall|c: int| 0 <= c < all.len() implies (#[trigger] all[c]).no_duplicates() by {
        if c < a.len() {
            assert(all[c] == a[c]);
        } else {
            assert(all[c] == b[c - a.len()]);
        }
    }
    assert forall|c: int, d: int, id: u64|
        #![trigger all[c].contains(id), all[d].contains(id)]
        0 <= c < all.len() && 0 <= d < all.len() && all[c].contains(id) && all[d].contains(
            id,
        ) implies c == d by {
        if c < a.len() && d < a.len() {
            assert(a[c].contains(id) && a[d].contains(id));
        } else if c >= a.len() && d >= a.len() {
            assert(b[c - a.len()].contains(id) && b[d - a.len()].contains(id));
        } else if c < a.len() {
            assert(a[c].contains(id) && b[d - a.len()].contains(id));
            assert(holds(a, id) && holds(b, id));
        } else {
            assert(a[d].contains(id) && b[c - a.len()].contains(id));
            assert(holds(a, id) && holds(b, id));
        }
    }
}

proof fn lemma_single_columns(ids: Seq<u64>)
    requires
        ids.no_duplicates(),
    ensures
        one_or_two(single_columns(ids)),
        placed_once(single_columns(ids)),
        forall|id: u64| #[trigger] holds(single_columns(ids), id) <==> ids.contains(id),
{
    let cols = single_columns(ids);
    assert forall|c: int, id: u64| 0 <= c < cols.len() implies (#[trigger] cols[c].contains(id)
        <==> id == ids[c]) by {
        assert(cols[c] =~= seq![ids[c]]);
        assert(cols[c][0] == ids[c]);
    }
    assert forall|id: u64| #[trigger] holds(cols, id) <==> ids.contains(id) by {
        if ids.contains(id) {
            let k = choose|k: int| 0 <= k < ids.len() && ids[k] == id;
            assert(cols[k].contains(id));
        }
        if holds(cols, id) {
            let c = choose|c: int| 0 <= c < cols.len() && (#[trigger] cols[c]).contains(id);
            assert(ids[c] == id);
        }
    }
}

proof fn lemma_first_two(col: Seq<u64>)
    requires
        col.no_duplicates(),
    ensures
        first_two(col).no_duplicates(),
        first_two(col).len() <= 2,
        col.len() > 0 ==> first_two(col).len() > 0,
        forall|id: u64| first_two(col).contains(id) ==> col.contains(id),
{
    assert forall|id: u64| first_two(col).contains(id) implies col.contains(id) by {
        let k = choose|k: int| 0 <= k < first_two(col).len() && first_two(col)[k] == id;
        assert(col[k] == id);
    }
}

proof fn lemma_kept_columns(cols: Seq<Seq<u64>>, ids: Seq<u64>)
    ensures
        one_or_two(kept_columns(cols, ids)),
        placed_once(kept_columns(cols, ids)),
        forall|id: u64| #[trigger] holds(kept_columns(cols, ids), id) ==> seen_ids(
            cols,
            ids,
        ).contains(id),
    decreases cols.len(),
{
    if cols.len() > 0 {
        let rest = cols.drop_last();
        lemma_kept_columns(rest, ids);
        let head = kept_columns(rest, ids);
        let seen = seen_ids(rest, ids);
        let kept = kept_ids(cols.last(), ids, seen);
        lemma_kept_ids(cols.last(), ids, seen);
        lemma_first_two(kept);
        let tail = seq![first_two(kept)];
        assert(placed_once(tail)) by {
            assert(tail[0].no_duplicates());
        }
        assert forall|id: u64| #[trigger] holds(tail, id) implies kept.contains(id) by {
            let c = choose|c: int| 0 <= c < tail.len() && (#[trigger] tail[c]).contains(id);
            assert(first_two(kept).contains(id));
        }
        assert forall|id: u64| !(#[trigger] holds(head, id) && #[trigger] holds(tail, id)) by {}
        lemma_placed_concat(head, tail);
        assert(head.push(first_two(kept)) =~= head + tail);
        assert forall|id: u64| #[trigger] holds(kept_columns(cols, ids), id) implies seen_ids(
            cols,
            ids,
        ).contains(id) by {
            lemma_concat_contains(seen, kept, id);
            lemma_holds_concat(head, tail, id);
        }
    } else {
        assert forall|id: u64| !(#[trigger] holds(kept_columns(cols, ids), id)) by {}
    }
}

proof fn lemma_kept_columns_all(cols: Seq<Seq<u64>>, ids: Seq<u64>)
    requires
        cuts_nothing(cols, ids),
    ensures
        forall|id: u64| #[trigger] seen_ids(cols, ids).contains(id) ==> holds(
            kept_columns(cols, ids),
            id,
        ),
    decreases cols.len(),
{
    if cols.len() > 0 {
        let rest = cols.drop_last();
        assert(cuts_nothing(rest, ids)) by {
            assert forall|i: int| 0 <= i < rest.len() implies kept_ids(
                #[trigger] rest[i],
                ids,
                seen_ids(rest.take(i), ids),
            ).len() <= 2 by {
                assert(rest.take(i) =~= cols.take(i));
                assert(rest[i] == cols[i]);
            }
        }
        lemma_kept_columns_all(rest, ids);
        let head = kept_columns(rest, ids);
        let seen = seen_ids(rest, ids);
        let kept = kept_ids(cols.last(), ids, seen);
        assert(kept.len() <= 2) by {
            assert(cols.take(cols.len() - 1) =~= rest);
            assert(cols[cols.len() - 1] == cols.last());
        }
        let tail = seq![kept];
        assert(head.push(kept) =~= head + tail);
        assert forall|id: u64| #[trigger] seen_ids(cols, ids).contains(id) implies holds(
            kept_columns(cols, ids),
            id,
        ) by {
            lemma_concat_contains(seen, kept, id);
            lemma_holds_concat(head, tail, id);
            if kept.contains(id) {
                assert(tail[0].contains(id));
            }
        }
    }
}

/// Normalized columns hold one or two panes each, no pane twice, and no pane that is not there;
/// and they hold every pane where nothing had to be cut off.
pub proof fn lemma_normalized(cols: Seq<Seq<u64>>, ids: Seq<u64>)
    ensures
        one_or_two(normalized(cols, ids)),
        placed_once(normalized(cols, ids)),
        forall|id: u64| #[trigger] holds(normalized(cols, ids), id) ==> ids.contains(id),
        cuts_nothing(cols, ids) ==> well_placed(normalized(cols, ids), ids),
        ids.len() > 0 ==> normalized(cols, ids).len() > 0,
{
    let head = kept_columns(cols, ids);
    let seen = seen_ids(cols, ids);
    let missing = kept_ids(ids, ids, seen);
    let tail = single_columns(missing);
    lemma_kept_columns(cols, ids);
    lemma_seen_ids(cols, ids);
    lemma_kept_ids(ids, ids, seen);
    lemma_single_columns(missing);
    assert forall|id: u64| !(#[trigger] holds(head, id) && #[trigger] holds(tail, id)) by {}
    lemma_placed_concat(head, tail);
    assert(one_or_two(head + tail)) by {
        assert forall|c: int| 0 <= c < (head + tail).len() implies 1 <= (#[trigger] (head
            + tail)[c]).len() <= 2 by {
            if c < head.len() {
                assert((head + tail)[c] == head[c]);
            } else {
                assert((head + tail)[c] == tail[c - head.len()]);
            }
        }
    }
    assert forall|id: u64| #[trigger] holds(normalized(cols, ids), id) implies ids.contains(id) by {
        lemma_holds_concat(head, tail, id);
    }
    if cuts_nothing(cols, ids) {
        lemma_kept_columns_all(cols, ids);
        assert forall|id: u64| #[trigger] holds(normalized(cols, ids), id) <==> ids.contains(
            id,
        ) by {
            lemma_holds_concat(head, tail, id);
            if ids.contains(id) && !seen.contains(id) {
                assert(missing.contains(id));
            }
        }
    }
    if ids.len() > 0 && normalized(cols, ids).len() == 0 {
        lemma_some_column_kept(cols, ids);
        assert(ids.contains(ids[0]));
        assert(!missing.contains(ids[0]));
        assert(seen.contains(ids[0]));
    }
}

proof fn lemma_some_column_kept(cols: Seq<Seq<u64>>, ids: Seq<u64>)
    ensures
        kept_columns(cols, ids).len() == 0 ==> seen_ids(cols, ids).len() == 0,
    decreases cols.len(),
{
    if cols.len() > 0 {
        lemma_some_column_kept(cols.drop_last(), ids);
    }
}

/// Columns of one or two identifiers lose none to cutting.
pub proof fn lemma_short_columns_cut_nothing(cols: Seq<Seq<u64>>, ids: Seq<u64>)
    requires
        forall|c: int| 0 <= c < cols.len() ==> (#[trigger] cols[c]).len() <= 2,
    ensures
        cuts_nothing(cols, ids),
{
    assert forall|i: int| 0 <= i < cols.len() implies kept_ids(
        #[trigger] cols[i],
        ids,
        seen_ids(cols.take(i), ids),
    ).len() <= 2 by {
        lemma_kept_ids(cols[i], ids, seen_ids(cols.take(i), ids));
    }
}

/// Normalizing twice places every pane, whatever the columns were.
pub proof fn lemma_normalized_twice(cols: Seq<Seq<u64>>, ids: Seq<u64>)
    ensures
        well_placed(normalized(normalized(cols, ids), ids), ids),
{
    lemma_normalized(cols, ids);
    lemma_short_columns_cut_nothing(normalized(cols, ids), ids);
    lemma_normalized(normalized(cols, ids), ids);
}

proof fn lemma_kept_ids_all(col: Seq<u64>, ids: Seq<u64>, seen: Seq<u64>)
    requires
        col.no_duplicates(),
        forall|id: u64| col.contains(id) ==> ids.contains(id) && !seen.contains(id),
    ensures
        kept_ids(col, ids, seen) == col,
    decreases col.len(),
{
    if col.len() > 0 {
        let rest = col.drop_last();
        assert forall|id: u64| rest.contains(id) implies col.contains(id) by {
            let k = choose|k: int| 0 <= k < rest.len() && rest[k] == id;
            assert(col[k] == id);
        }
        lemma_kept_ids_all(rest, ids, seen);
        assert(col.contains(col.last())) by {
            assert(col[col.len() - 1] == col.last());
        }
        assert(!rest.contains(col.last())) by {
            if rest.contains(col.last()) {
                let k = choose|k: int| 0 <= k < rest.len() && rest[k] == col.last();
                assert(col[k] == col[col.len() - 1]);
            }
        }
        assert(rest.push(col.last()) =~= col);
    } else {
        assert(kept_ids(col, ids, seen) =~= col);
    }
}

proof fn lemma_kept_columns_same(cols: Seq<Seq<u64>>, ids: Seq<u64>)
    requires
        one_or_two(cols),
        placed_once(cols),
        forall|id: u64| #[trigger] holds(cols, id) ==> ids.contains(id),
    ensures
        kept_columns(cols, ids) == cols,
    decreases cols.len(),
{
    if cols.len() > 0 {
        let rest = cols.drop_last();
        assert(placed_once(rest)) by {
            assert forall|c: int| 0 <= c < rest.len() implies (#[trigger] rest[c]).no_duplicates() by {
                assert(rest[c] == cols[c]);
            }
            assert forall|c: int, d: int, id: u64|
                #![trigger rest[c].contains(id), rest[d].contains(id)]
                0 <= c < rest.len() && 0 <= d < rest.len() && rest[c].contains(id)
                    && rest[d].contains(id) implies c == d by {
                assert(cols[c].contains(id) && cols[d].contains(id));
            }
        }
        assert(one_or_two(rest)) by {
            assert forall|c: int| 0 <= c < rest.len() implies 1 <= (#[trigger] rest[c]).len()
                <= 2 by {
                assert(rest[c] == cols[c]);
            }
        }
        assert forall|id: u64| #[trigger] holds(rest, id) implies ids.contains(id) by {
            lemma_holds_split(cols, id);
            assert(holds(cols, id));
        }
        lemma_kept_columns_same(rest, ids);
        lemma_seen_ids(rest, ids);
        let last = cols[cols.len() - 1];
        assert forall|id: u64| last.contains(id) implies ids.contains(id) && !seen_ids(
            rest,
            ids,
        ).contains(id) by {
            lemma_holds_split(cols, id);
            assert(holds(cols, id));
            if holds(rest, id) {
                let c = choose|c: int| 0 <= c < rest.len() && (#[trigger] rest[c]).contains(id);
                assert(cols[c].contains(id));
                assert(cols[cols.len() - 1].contains(id));
            }
        }
        lemma_kept_ids_all(last, ids, seen_ids(rest, ids));
        assert(first_two(last) == last);
        assert(rest.push(last) =~= cols);
    } else {
        assert(kept_columns(cols, ids) =~= cols);
    }
}

/// Columns that place the panes already are left as they are.
pub proof fn lemma_normalized_unchanged(cols: Seq<Seq<u64>>, ids: Seq<u64>)
    requires
        well_placed(cols, ids),
    ensures
        normalized(cols, ids) == cols,
{
    lemma_kept_columns_same(cols, ids);
    lemma_seen_ids(cols, ids);
    let missing = kept_ids(ids, ids, seen_ids(cols, ids));
    lemma_kept_ids(ids, ids, seen_ids(cols, ids));
    assert(missing.len() == 0) by {
        if missing.len() > 0 {
            assert(missing.contains(missing[0]));
            assert(holds(cols, missing[0]));
        }
    }
    assert(cols + single_columns(missing) =~= cols);
}

fn contains_id(ids: &Vec<u64>, id: u64) -> (r: bool)
    ensures
        r == ids@.contains(id),
{
    let mut i: usize = 0;
    while i < ids.len()
        invariant
            i <= ids@.len(),
            forall|k: int| 0 <= k < i ==> ids@[k] != id,
        decreases ids.len() - i,
    {
        if ids[i] == id {
            return true;
        }
        i += 1;
    }
    false
}

fn keep_ids(col: &Vec<u64>, ids: &Vec<u64>, seen: &Vec<u64>) -> (kept: Vec<u64>)
    ensures
        kept@ == kept_ids(col@, ids@, seen@),
{
    let mut kept: Vec<u64> = Vec::new();
    let mut i: usize = 0;
    assert(col@.take(0) =~= Seq::empty());
    while i < col.len()
        invariant
            i <= col@.len(),
            kept@ == kept_ids(col@.take(i as int), ids@, seen@),
        decreases col.len() - i,
    {
        assert(col@.take(i + 1).drop_last() =~= col@.take(i as int));
        let id = col[i];
        if contains_id(ids, id) && !contains_id(seen, id) && !contains_id(&kept, id) {
            kept.push(id);
        }
        i += 1;
    }
    assert(col@.take(i as int) =~= col@);
    kept
}

/// Brings columns in line with the panes `pane_ids`.
pub fn normalize_columns_for_ids(columns: &Vec<Vec<u64>>, pane_ids: &Vec<u64>) -> (out: Vec<
    Vec<u64>,
>)
    ensures
        grid(out@) == normalized(grid(columns@), pane_ids@),
{
    let ghost cols = grid(columns@);
    let ghost ids = pane_ids@;
    let mut out: Vec<Vec<u64>> = Vec::new();
    let mut seen: Vec<u64> = Vec::new();
    let mut i: usize = 0;
    assert(cols.take(0) =~= Seq::empty());
    assert(grid(out@) =~= Seq::empty());
    while i < columns.len()
        invariant
            i <= columns@.len(),
            cols == grid(columns@),
            ids == pane_ids@,
            grid(out@) == kept_columns(cols.take(i as int), ids),
            seen@ == seen_ids(cols.take(i as int), ids),
        decreases columns.len() - i,
    {
        assert(cols.take(i + 1).drop_last() =~= cols.take(i as int));
        let mut kept = keep_ids(&columns[i], pane_ids, &seen);
        let ghost whole = kept@;
        let mut j: usize = 0;
        let ghost before = seen@;
        while j < kept.len()
            invariant
                j <= kept@.len(),
                seen@ == before + kept@.take(j as int),
            decreases kept.len() - j,
        {
            seen.push(kept[j]);
            j += 1;
            assert(seen@ =~= before + kept@.take(j as int));
        }
        assert(kept@.take(j as int) =~= kept@);
        if kept.len() > 2 {
            kept.truncate(2);
            assert(kept@ =~= whole.take(2));
        }
        if kept.len() > 0 {
            let ghost old_out = out@;
            out.push(kept);
            assert(grid(out@) =~= grid(old_out).push(kept@));
        }
        i += 1;
    }
    assert(cols.take(i as int) =~= cols);
    let missing = keep_ids(pane_ids, pane_ids, &seen);
    let ghost head = grid(out@);
    let mut k: usize = 0;
    assert(head + single_columns(missing@.take(0)) =~= head);
    while k < missing.len()
        invariant
            k <= missing@.len(),
            grid(out@) == head + single_columns(missing@.take(k as int)),
        decreases missing.len() - k,
    {
        let mut column: Vec<u64> = Vec::new();
        column.push(missing[k]);
        let ghost old_out = out@;
        out.push(column);
        assert(grid(out@) =~= grid(old_out).push(column@));
        assert(column@ =~= seq![missing@[k as int]]);
        k += 1;
        assert(single_columns(missing@.take(k as int)) =~= single_columns(
            missing@.take(k - 1),
        ).push(column@));
        assert(grid(out@) =~= head + single_columns(missing@.take(k as int)));
    }
    assert(missing@.take(k as int) =~= missing@);
    out
}

} // verus!
