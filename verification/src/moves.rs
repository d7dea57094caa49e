//! Moving panes between columns.
use crate::number::decimal_text;
use crate::text::concat3;
use vstd::prelude::*;
#[allow(unused_imports)]
use crate::columns::{grid, holds, one_or_two, placed_once, well_placed};
#[allow(unused_imports)]
use crate::number::decimal;

verus! {

// ---------------------------------------------------------------------------------------------
// Finding a pane
// ---------------------------------------------------------------------------------------------
/// The first row of `col` that holds `id`, or the length of `col` where none does.
pub open spec fn first_row(col: Seq<u64>, id: u64) -> nat
    decreases col.len(),
{
    if col.len() == 0 || col[0] == id {
        0
    } else {
        1 + first_row(col.drop_first(), id)
    }
}

/// The column and the row of the first place that holds `id`.
pub open spec fn place_of(cols: Seq<Seq<u64>>, id: u64) -> Option<(int, int)>
    decreases cols.len(),
{
    if cols.len() == 0 {
        None
    } else if first_row(cols[0], id) < cols[0].len() {
        Some((0, first_row(cols[0], id) as int))
    } else {
        match place_of(cols.drop_first(), id) {
            Some(place) => Some((place.0 + 1, place.1)),
            None => None,
        }
    }
}

proof fn lemma_first_row(col: Seq<u64>, id: u64)
    ensures
        first_row(col, id) <= col.len(),
        first_row(col, id) < col.len() <==> col.contains(id),
        first_row(col, id) < col.len() ==> col[first_row(col, id) as int] == id,
    decreases col.len(),
{
    if col.len() > 0 && col[0] != id {
        let rest = col.drop_first();
        lemma_first_row(rest, id);
        if col.contains(id) {
            let k = choose|k: int| 0 <= k < col.len() && col[k] == id;
            assert(rest[k - 1] == id);
        }
        if rest.contains(id) {
            let k = choose|k: int| 0 <= k < rest.len() && rest[k] == id;
            assert(col[k + 1] == id);
        }
    } else if col.len() > 0 {
        assert(col[0] == id);
    }
}

/// A pane has a place exactly when a column holds it, and it stands there.
pub proof fn lemma_place_of(cols: Seq<Seq<u64>>, id: u64)
    ensures
        match place_of(cols, id) {
            Some((c, r)) => 0 <= c < cols.len() && 0 <= r < cols[c].len() && cols[c][r] == id
                && cols[c].contains(id) && holds(cols, id),
            None => !holds(cols, id),
        },
    decreases cols.len(),
{
    if cols.len() > 0 {
        let rest = cols.drop_first();
        lemma_first_row(cols[0], id);
        if first_row(cols[0], id) < cols[0].len() {
            assert(cols[0].contains(id));
        } else {
            lemma_place_of(rest, id);
            match place_of(rest, id) {
                Some((c, r)) => {
                    assert(rest[c] == cols[c + 1]);
                    assert(cols[c + 1].contains(id));
                },
                None => {
                    if holds(cols, id) {
                        let c = choose|c: int|
                            0 <= c < cols.len() && (#[trigger] cols[c]).contains(id);
                        assert(rest[c - 1].contains(id));
                    }
                },
            }
        }
    }
}

/// The column and the row of a pane.
pub fn pane_position(columns: &Vec<Vec<u64>>, pane_id: u64) -> (r: Option<(usize, usize)>)
    ensures
        match r {
            Some(p) => place_of(grid(columns@), pane_id) == Some((p.0 as int, p.1 as int)),
            None => place_of(grid(columns@), pane_id) is None,
        },
{
    let ghost cols = grid(columns@);
    let mut c: usize = 0;
    assert(cols.skip(0) =~= cols);
    while c < columns.len()
        invariant
            c <= columns@.len(),
            cols == grid(columns@),
            place_of(cols, pane_id) == (match place_of(cols.skip(c as int), pane_id) {
                Some((x, y)) => Some((x + c, y)),
                None => None,
            }),
        decreases columns.len() - c,
    {
        let col = &columns[c];
        let mut row: usize = 0;
        assert(col@.skip(0) =~= col@);
        assert(cols.skip(c as int)[0] == col@);
        assert(cols.skip(c as int).drop_first() =~= cols.skip(c + 1));
        while row < col.len()
            invariant
                row <= col@.len(),
                c < columns@.len(),
                cols == grid(columns@),
                cols.skip(c as int)[0] == col@,
                first_row(col@, pane_id) == row + first_row(col@.skip(row as int), pane_id),
                place_of(cols, pane_id) == (match place_of(cols.skip(c as int), pane_id) {
                    Some((x, y)) => Some((x + c, y)),
                    None => None,
                }),
            decreases col.len() - row,
        {
            assert(col@.skip(row as int).drop_first() =~= col@.skip(row + 1));
            if col[row] == pane_id {
                return Some((c, row));
            }
            row += 1;
        }
        c += 1;
    }
    None
}

// ---------------------------------------------------------------------------------------------
// Taking a pane out and putting it in
// ---------------------------------------------------------------------------------------------
/// `cols` without the place `(c, r)`, and without its column where that was its only pane.
pub open spec fn taken_out(cols: Seq<Seq<u64>>, c: int, r: int) -> Seq<Seq<u64>> {
    let rest = cols[c].remove(r);
    if rest.len() == 0 {
        cols.remove(c)
    } else {
        cols.update(c, rest)
    }
}

proof fn lemma_removed_row(col: Seq<u64>, r: int)
    requires
        0 <= r < col.len(),
        col.no_duplicates(),
    ensures
        col.remove(r).no_duplicates(),
        forall|x: u64| #[trigger] col.remove(r).contains(x) <==> col.contains(x) && x != col[r],
{
    let out = col.remove(r);
    assert forall|x: u64| #[trigger] out.contains(x) <==> col.contains(x) && x != col[r] by {
        if out.contains(x) {
            let k = choose|k: int| 0 <= k < out.len() && out[k] == x;
            assert(out[k] == if k < r {
                col[k]
            } else {
                col[k + 1]
            });
        }
        if col.contains(x) && x != col[r] {
            let k = choose|k: int| 0 <= k < col.len() && col[k] == x;
            if k < r {
                assert(out[k] == x);
            } else {
                assert(out[k - 1] == x);
            }
        }
    }
}

/// Taking a pane out leaves the others where they were, in columns of one or two.
pub proof fn lemma_taken_out(cols: Seq<Seq<u64>>, c: int, r: int)
    requires
        one_or_two(cols),
        placed_once(cols),
        0 <= c < cols.len(),
        0 <= r < cols[c].len(),
    ensures
        one_or_two(taken_out(cols, c, r)),
        placed_once(taken_out(cols, c, r)),
        forall|x: u64| #[trigger] holds(taken_out(cols, c, r), x) <==> holds(cols, x) && x
            != cols[c][r],
{
    let out = taken_out(cols, c, r);
    let id = cols[c][r];
    let rest = cols[c].remove(r);
    lemma_removed_row(cols[c], r);
    let gone = rest.len() == 0;
    assert(cols[c].contains(id));
    // where the column `k` of `out` stood before
    let from = |k: int|
        if gone && k >= c {
            k + 1
        } else {
            k
        };
    assert forall|k: int| 0 <= k < out.len() implies 0 <= #[trigger] from(k) < cols.len() && out[k]
        == (if from(k) == c {
        rest
    } else {
        cols[from(k)]
    }) by {}
    assert forall|k: int, x: u64| 0 <= k < out.len() implies (#[trigger] out[k].contains(x)
        <==> cols[from(k)].contains(x) && x != id) by {
        let f = from(k);
        if f != c && cols[f].contains(id) {
            assert(cols[c].contains(id));
        }
    }
    assert forall|k: int| 0 <= k < out.len() implies 1 <= (#[trigger] out[k]).len() <= 2 by {
        let f = from(k);
        assert(1 <= cols[f].len() <= 2);
    }
    assert forall|k: int| 0 <= k < out.len() implies (#[trigger] out[k]).no_duplicates() by {
        let f = from(k);
        assert(cols[f].no_duplicates());
    }
    assert forall|j: int, k: int, x: u64|
        #![trigger out[j].contains(x), out[k].contains(x)]
        0 <= j < out.len() && 0 <= k < out.len() && out[j].contains(x) && out[k].contains(
            x,
        ) implies j == k by {
        let fj = from(j);
        let fk = from(k);
        assert(cols[fj].contains(x) && cols[fk].contains(x));
    }
    assert forall|x: u64| #[trigger] holds(out, x) <==> holds(cols, x) && x != id by {
        if holds(out, x) {
            let k = choose|k: int| 0 <= k < out.len() && (#[trigger] out[k]).contains(x);
            let f = from(k);
            assert(cols[f].contains(x));
        }
        if holds(cols, x) && x != id {
            let f = choose|f: int| 0 <= f < cols.len() && (#[trigger] cols[f]).contains(x);
            if gone && f == c {
                assert(rest.contains(x));
            }
            let k = if gone && f > c {
                f - 1
            } else {
                f
            };
            assert(from(k) == f);
            assert(out[k].contains(x));
        }
    }
}

/// A new column for a pane that has no place keeps the columns in order.
pub proof fn lemma_column_inserted(cols: Seq<Seq<u64>>, at: int, id: u64)
    requires
        one_or_two(cols),
        placed_once(cols),
        0 <= at <= cols.len(),
        !holds(cols, id),
    ensures
        one_or_two(cols.insert(at, seq![id])),
        placed_once(cols.insert(at, seq![id])),
        forall|x: u64| #[trigger] holds(cols.insert(at, seq![id]), x) <==> holds(cols, x) || x
            == id,
{
    let out = cols.insert(at, seq![id]);
    let from = |k: int|
        if k > at {
            k - 1
        } else {
            k
        };
    assert(out[at] == seq![id]);
    assert(out[at][0] == id);
    assert forall|k: int, x: u64| 0 <= k < out.len() implies (#[trigger] out[k].contains(x) <==> if k
        == at {
        x == id
    } else {
        cols[from(k)].contains(x)
    }) by {}
    assert forall|k: int| 0 <= k < out.len() implies 1 <= (#[trigger] out[k]).len() <= 2 by {
        if k != at {
            let f = from(k);
            assert(out[k] == cols[f]);
        }
    }
    assert forall|k: int| 0 <= k < out.len() implies (#[trigger] out[k]).no_duplicates() by {
        if k != at {
            let f = from(k);
            assert(out[k] == cols[f]);
        }
    }
    assert forall|j: int, k: int, x: u64|
        #![trigger out[j].contains(x), out[k].contains(x)]
        0 <= j < out.len() && 0 <= k < out.len() && out[j].contains(x) && out[k].contains(
            x,
        ) implies j == k by {
        let fj = from(j);
        let fk = from(k);
        if j == at && k != at {
            assert(cols[fk].contains(id));
        } else if k == at && j != at {
            assert(cols[fj].contains(id));
        } else if j != at {
            assert(cols[fj].contains(x) && cols[fk].contains(x));
        }
    }
    assert forall|x: u64| #[trigger] holds(out, x) <==> holds(cols, x) || x == id by {
        if holds(out, x) {
            let k = choose|k: int| 0 <= k < out.len() && (#[trigger] out[k]).contains(x);
            if k != at {
                let f = from(k);
                assert(cols[f].contains(x));
            }
        }
        if holds(cols, x) {
            let f = choose|f: int| 0 <= f < cols.len() && (#[trigger] cols[f]).contains(x);
            let k = if f >= at {
                f + 1
            } else {
                f
            };
            assert(from(k) == f);
            assert(out[k].contains(x));
        }
        if x == id {
            assert(out[at].contains(x));
        }
    }
}

/// A pane that has no place, put into a column of one, keeps the columns in order.
pub proof fn lemma_row_inserted(cols: Seq<Seq<u64>>, c: int, row: int, id: u64)
    requires
        one_or_two(cols),
        placed_once(cols),
        0 <= c < cols.len(),
        cols[c].len() < 2,
        0 <= row <= cols[c].len(),
        !holds(cols, id),
    ensures
        one_or_two(cols.update(c, cols[c].insert(row, id))),
        placed_once(cols.update(c, cols[c].insert(row, id))),
        forall|x: u64| #[trigger]
            holds(cols.update(c, cols[c].insert(row, id)), x) <==> holds(cols, x) || x == id,
{
    let grown = cols[c].insert(row, id);
    let out = cols.update(c, grown);
    let only = cols[c][0];
    assert(cols[c].contains(only));
    assert(1 <= cols[c].len() <= 2);
    assert(only != id) by {
        if only == id {
            assert(cols[c].contains(id));
        }
    }
    assert forall|x: u64| #[trigger] grown.contains(x) <==> x == only || x == id by {
        assert(grown[row] == id);
        assert(grown[1 - row] == only);
        if grown.contains(x) {
            let k = choose|k: int| 0 <= k < grown.len() && grown[k] == x;
            assert(k == row || k == 1 - row);
        }
    }
    assert forall|x: u64| #[trigger] cols[c].contains(x) <==> x == only by {}
    assert forall|k: int| 0 <= k < out.len() implies 1 <= (#[trigger] out[k]).len() <= 2 by {
        assert(1 <= cols[k].len() <= 2);
    }
    assert forall|k: int| 0 <= k < out.len() implies (#[trigger] out[k]).no_duplicates() by {
        assert(cols[k].no_duplicates());
    }
    assert forall|j: int, k: int, x: u64|
        #![trigger out[j].contains(x), out[k].contains(x)]
        0 <= j < out.len() && 0 <= k < out.len() && out[j].contains(x) && out[k].contains(
            x,
        ) implies j == k by {
        if x == id {
            if j != c {
                assert(cols[j].contains(id));
            }
            if k != c {
                assert(cols[k].contains(id));
            }
        } else {
            assert(cols[j].contains(x) && cols[k].contains(x));
        }
    }
    assert forall|x: u64| #[trigger] holds(out, x) <==> holds(cols, x) || x == id by {
        if holds(out, x) {
            let k = choose|k: int| 0 <= k < out.len() && (#[trigger] out[k]).contains(x);
            if x != id {
                assert(cols[k].contains(x));
            }
        }
        if holds(cols, x) {
            let k = choose|k: int| 0 <= k < cols.len() && (#[trigger] cols[k]).contains(x);
            assert(out[k].contains(x));
        }
        if x == id {
            assert(out[c].contains(x));
        }
    }
}

fn take_out(columns: &mut Vec<Vec<u64>>, c: usize, r: usize)
    requires
        c < old(columns)@.len(),
        r < old(columns)@[c as int]@.len(),
    ensures
        grid(final(columns)@) == taken_out(grid(old(columns)@), c as int, r as int),
{
    let ghost before = columns@;
    let mut col = columns.remove(c);
    col.remove(r);
    assert(col@ == grid(before)[c as int].remove(r as int));
    if col.len() > 0 {
        columns.insert(c, col);
        assert(grid(columns@) =~= grid(before).update(c as int, col@));
    } else {
        assert(grid(columns@) =~= grid(before).remove(c as int));
    }
}

fn insert_column(columns: &mut Vec<Vec<u64>>, at: usize, id: u64)
    requires
        at <= old(columns)@.len(),
    ensures
        grid(final(columns)@) == grid(old(columns)@).insert(at as int, seq![id]),
{
    let ghost before = columns@;
    let mut col: Vec<u64> = Vec::new();
    col.push(id);
    columns.insert(at, col);
    assert(col@ =~= seq![id]);
    assert(grid(columns@) =~= grid(before).insert(at as int, seq![id]));
}

// ---------------------------------------------------------------------------------------------
// Moves
// ---------------------------------------------------------------------------------------------
/// The columns after `dragged` has moved into a column of its own beside that of `target`, and
/// whether `target` was found; nothing where `dragged` has no place.
pub open spec fn moved_beside(
    cols: Seq<Seq<u64>>,
    dragged: u64,
    target: u64,
    after: bool,
) -> Option<(Seq<Seq<u64>>, bool)> {
    match place_of(cols, dragged) {
        None => None,
        Some((c, r)) => {
            let rest = taken_out(cols, c, r);
            match place_of(rest, target) {
                None => Some((rest.insert(rest.len() as int, seq![dragged]), false)),
                Some((t, _)) => Some(
                    (
                        rest.insert(
                            if after {
                                t + 1
                            } else {
                                t
                            },
                            seq![dragged],
                        ),
                        true,
                    ),
                ),
            }
        },
    }
}

/// The columns after `dragged` has moved above or below `target`, and whether `target` was found;
/// beside it where its column holds two panes already; nothing where `dragged` has no place.
pub open spec fn moved_above_or_below(
    cols: Seq<Seq<u64>>,
    dragged: u64,
    target: u64,
    below: bool,
) -> Option<(Seq<Seq<u64>>, bool)> {
    match place_of(cols, dragged) {
        None => None,
        Some((c, r)) => {
            let rest = taken_out(cols, c, r);
            match place_of(rest, target) {
                None => Some((rest.insert(rest.len() as int, seq![dragged]), false)),
                Some((t, row)) => if rest[t].len() < 2 {
                    Some(
                        (
                            rest.update(
                                t,
                                rest[t].insert(
                                    if below {
                                        row + 1
                                    } else {
                                        row
                                    },
                                    dragged,
                                ),
                            ),
                            true,
                        ),
                    )
                } else {
                    Some(
                        (
                            rest.insert(
                                if below {
                                    t + 1
                                } else {
                                    t
                                },
                                seq![dragged],
                            ),
                            true,
                        ),
                    )
                },
            }
        },
    }
}

/// A move beside another pane keeps every pane in exactly one place.
pub proof fn lemma_moved_beside(
    cols: Seq<Seq<u64>>,
    ids: Seq<u64>,
    dragged: u64,
    target: u64,
    after: bool,
)
    requires
        well_placed(cols, ids),
        ids.contains(dragged),
    ensures
        moved_beside(cols, dragged, target, after) matches Some(m) && well_placed(m.0, ids) && (m.1
            <==> ids.contains(target) && target != dragged),
{
    lemma_place_of(cols, dragged);
    assert(holds(cols, dragged));
    let (c, r) = place_of(cols, dragged)->0;
    lemma_taken_out(cols, c, r);
    let rest = taken_out(cols, c, r);
    lemma_place_of(rest, target);
    let at = match place_of(rest, target) {
        None => rest.len() as int,
        Some((t, _)) => if after {
            t + 1
        } else {
            t
        },
    };
    lemma_column_inserted(rest, at, dragged);
    let out = rest.insert(at, seq![dragged]);
    assert(holds(rest, target) <==> holds(cols, target) && target != dragged);
    assert forall|x: u64| #[trigger] holds(out, x) <==> ids.contains(x) by {
        assert(holds(rest, x) <==> holds(cols, x) && x != dragged);
        assert(holds(cols, x) <==> ids.contains(x));
    }
}

/// A move above or below another pane keeps every pane in exactly one place.
pub proof fn lemma_moved_above_or_below(
    cols: Seq<Seq<u64>>,
    ids: Seq<u64>,
    dragged: u64,
    target: u64,
    below: bool,
)
    requires
        well_placed(cols, ids),
        ids.contains(dragged),
    ensures
        moved_above_or_below(cols, dragged, target, below) matches Some(m) && well_placed(m.0, ids)
            && (m.1 <==> ids.contains(target) && target != dragged),
{
    lemma_place_of(cols, dragged);
    assert(holds(cols, dragged));
    let (c, r) = place_of(cols, dragged)->0;
    lemma_taken_out(cols, c, r);
    let rest = taken_out(cols, c, r);
    lemma_place_of(rest, target);
    assert(holds(rest, target) <==> holds(cols, target) && target != dragged);
    let moved = moved_above_or_below(cols, dragged, target, below)->0;
    let out = moved.0;
    match place_of(rest, target) {
        None => {
            lemma_column_inserted(rest, rest.len() as int, dragged);
        },
        Some((t, row)) => {
            if rest[t].len() < 2 {
                let at = if below {
                    row + 1
                } else {
                    row
                };
                lemma_row_inserted(rest, t, at, dragged);
            } else {
                let at = if below {
                    t + 1
                } else {
                    t
                };
                lemma_column_inserted(rest, at, dragged);
            }
        },
    }
    assert forall|x: u64| #[trigger] holds(out, x) <==> ids.contains(x) by {
        assert(holds(rest, x) <==> holds(cols, x) && x != dragged);
        assert(holds(cols, x) <==> ids.contains(x));
    }
}

// ---------------------------------------------------------------------------------------------
// Where a moved pane stands
// ---------------------------------------------------------------------------------------------
pub open spec fn other_than(id: u64) -> spec_fn(u64) -> bool {
    |x: u64| x != id
}

pub open spec fn is_filled() -> spec_fn(Seq<u64>) -> bool {
    |col: Seq<u64>| col.len() > 0
}

/// The columns without a pane, and without those that it leaves empty.
pub open spec fn without(cols: Seq<Seq<u64>>, id: u64) -> Seq<Seq<u64>> {
    Seq::new(cols.len(), |k: int| cols[k].filter(other_than(id))).filter(is_filled())
}

/// Where all elements are wanted, all are kept.
pub proof fn lemma_filter_all<A>(s: Seq<A>, pred: spec_fn(A) -> bool)
    requires
        forall|i: int| 0 <= i < s.len() ==> pred(#[trigger] s[i]),
    ensures
        s.filter(pred) == s,
    decreases s.len(),
{
    reveal(Seq::filter);
    if s.len() > 0 {
        lemma_filter_all(s.drop_last(), pred);
        assert(pred(s[s.len() - 1]));
        assert(s.drop_last().push(s.last()) =~= s);
    }
}

proof fn lemma_filter_but_one<A>(s: Seq<A>, pred: spec_fn(A) -> bool, c: int)
    requires
        0 <= c < s.len(),
        !pred(s[c]),
        forall|i: int| 0 <= i < s.len() && i != c ==> pred(#[trigger] s[i]),
    ensures
        s.filter(pred) == s.remove(c),
    decreases s.len(),
{
    reveal(Seq::filter);
    let head = s.drop_last();
    if c == s.len() - 1 {
        lemma_filter_all(head, pred);
        assert(s.remove(c) =~= head);
    } else {
        assert(head[c] == s[c]);
        lemma_filter_but_one(head, pred, c);
        assert(pred(s[s.len() - 1]));
        assert(head.remove(c).push(s.last()) =~= s.remove(c));
    }
}

proof fn lemma_taken_out_is_without(cols: Seq<Seq<u64>>, c: int, r: int)
    requires
        one_or_two(cols),
        placed_once(cols),
        0 <= c < cols.len(),
        0 <= r < cols[c].len(),
    ensures
        taken_out(cols, c, r) == without(cols, cols[c][r]),
{
    let id = cols[c][r];
    let keep = other_than(id);
    let filled = is_filled();
    let cut = Seq::new(cols.len(), |k: int| cols[k].filter(other_than(id)));
    let rest = cols[c].remove(r);
    assert(cols[c].contains(id));
    assert forall|k: int| 0 <= k < cols.len() && k != c implies #[trigger] cut[k] == cols[k] by {
        assert forall|i: int| 0 <= i < cols[k].len() implies keep(#[trigger] cols[k][i]) by {
            if cols[k][i] == id {
                assert(cols[k].contains(id));
            }
        }
        lemma_filter_all(cols[k], keep);
    }
    assert(cut[c] == rest) by {
        assert forall|i: int| 0 <= i < cols[c].len() && i != r implies keep(
            #[trigger] cols[c][i],
        ) by {
            assert(cols[c].no_duplicates());
        }
        lemma_filter_but_one(cols[c], keep, r);
    }
    if rest.len() == 0 {
        assert forall|k: int| 0 <= k < cut.len() && k != c implies filled(#[trigger] cut[k]) by {
            assert(1 <= cols[k].len());
        }
        lemma_filter_but_one(cut, filled, c);
        assert(cut.remove(c) =~= cols.remove(c));
    } else {
        assert forall|k: int| 0 <= k < cut.len() implies filled(#[trigger] cut[k]) by {
            assert(1 <= cols[k].len());
        }
        lemma_filter_all(cut, filled);
        assert(cut =~= cols.update(c, rest));
    }
    assert(Seq::new(cols.len(), |k: int| cols[k].filter(other_than(id))) =~= cut);
}

/// Taking a pane out leaves the columns without it, each pane in its place.
pub proof fn lemma_rest_after_move(cols: Seq<Seq<u64>>, dragged: u64)
    requires
        one_or_two(cols),
        placed_once(cols),
        holds(cols, dragged),
    ensures
        place_of(cols, dragged) matches Some(place) && taken_out(cols, place.0, place.1) == without(
            cols,
            dragged,
        ) && one_or_two(without(cols, dragged)) && placed_once(without(cols, dragged)),
        forall|x: u64| #[trigger] holds(without(cols, dragged), x) <==> holds(cols, x) && x
            != dragged,
{
    lemma_place_of(cols, dragged);
    let (c, r) = place_of(cols, dragged)->0;
    lemma_taken_out_is_without(cols, c, r);
    lemma_taken_out(cols, c, r);
}

/// Whether the pane stands alone in a column directly beside that of the target, behind it or
/// before it, and the other panes stand as they do without it.
pub open spec fn stands_beside(
    out: Seq<Seq<u64>>,
    cols: Seq<Seq<u64>>,
    dragged: u64,
    target: u64,
    after: bool,
) -> bool {
    exists|k: int|
        0 <= k < out.len() && #[trigger] out[k] == seq![dragged] && out.remove(k) == without(
            cols,
            dragged,
        ) && (if after {
            k > 0 && out[k - 1].contains(target)
        } else {
            k + 1 < out.len() && out[k + 1].contains(target)
        })
}

/// Whether the pane stands in one column with the target, below it or above it, and the other panes
/// stand as they do without it.
pub open spec fn stands_over(
    out: Seq<Seq<u64>>,
    cols: Seq<Seq<u64>>,
    dragged: u64,
    target: u64,
    below: bool,
) -> bool {
    exists|k: int|
        0 <= k < out.len() && #[trigger] out[k] == (if below {
            seq![target, dragged]
        } else {
            seq![dragged, target]
        }) && out.update(k, seq![target]) == without(cols, dragged)
}

/// A pane that is moved beside another stands alone in the next column on that side, and all others
/// stay in their order. Where the other pane is not there, or is the pane itself, it goes to the
/// right end. A pane without a place is not moved.
pub proof fn lemma_where_moved_beside(
    cols: Seq<Seq<u64>>,
    dragged: u64,
    target: u64,
    after: bool,
)
    requires
        one_or_two(cols),
        placed_once(cols),
    ensures
        !holds(cols, dragged) ==> moved_beside(cols, dragged, target, after) is None,
        holds(cols, dragged) && holds(cols, target) && target != dragged ==> (moved_beside(
            cols,
            dragged,
            target,
            after,
        ) matches Some(m) && m.1 && stands_beside(m.0, cols, dragged, target, after)),
        holds(cols, dragged) && !(holds(cols, target) && target != dragged) ==> moved_beside(
            cols,
            dragged,
            target,
            after,
        ) == Some((without(cols, dragged).push(seq![dragged]), false)),
{
    lemma_place_of(cols, dragged);
    if holds(cols, dragged) {
        lemma_rest_after_move(cols, dragged);
        let rest = without(cols, dragged);
        lemma_place_of(rest, target);
        assert(holds(rest, target) <==> holds(cols, target) && target != dragged);
        match place_of(rest, target) {
            None => {
                assert(rest.insert(rest.len() as int, seq![dragged]) =~= rest.push(seq![dragged]));
            },
            Some((t, _)) => {
                let k = if after {
                    t + 1
                } else {
                    t
                };
                let out = rest.insert(k, seq![dragged]);
                assert(out[k] == seq![dragged]);
                assert(out.remove(k) =~= rest);
                if after {
                    assert(out[k - 1] == rest[t]);
                } else {
                    assert(out[k + 1] == rest[t]);
                }
                assert(stands_beside(out, cols, dragged, target, after));
            },
        }
    }
}

/// A pane that is moved above or below another shares its column, on that side of it, where the
/// other pane is alone without it; beside a column of two it gets a column of its own, before it
/// for above and behind it for below.
pub proof fn lemma_where_moved_above_or_below(
    cols: Seq<Seq<u64>>,
    dragged: u64,
    target: u64,
    below: bool,
)
    requires
        one_or_two(cols),
        placed_once(cols),
    ensures
        !holds(cols, dragged) ==> moved_above_or_below(cols, dragged, target, below) is None,
        holds(cols, dragged) && holds(cols, target) && target != dragged ==> (moved_above_or_below(
            cols,
            dragged,
            target,
            below,
        ) matches Some(m) && m.1 && (if without(cols, dragged).contains(seq![target]) {
            stands_over(m.0, cols, dragged, target, below)
        } else {
            stands_beside(m.0, cols, dragged, target, below)
        })),
        holds(cols, dragged) && !(holds(cols, target) && target != dragged)
            ==> moved_above_or_below(cols, dragged, target, below) == Some(
            (without(cols, dragged).push(seq![dragged]), false),
        ),
{
    lemma_place_of(cols, dragged);
    if holds(cols, dragged) {
        lemma_rest_after_move(cols, dragged);
        let rest = without(cols, dragged);
        lemma_place_of(rest, target);
        assert(holds(rest, target) <==> holds(cols, target) && target != dragged);
        match place_of(rest, target) {
            None => {
                assert(rest.insert(rest.len() as int, seq![dragged]) =~= rest.push(seq![dragged]));
            },
            Some((t, row)) => {
                assert(1 <= rest[t].len() <= 2);
                if rest[t].len() < 2 {
                    assert(rest[t] =~= seq![target]);
                    assert(rest.contains(seq![target]));
                    let at = if below {
                        row + 1
                    } else {
                        row
                    };
                    let out = rest.update(t, rest[t].insert(at, dragged));
                    assert(out[t] =~= (if below {
                        seq![target, dragged]
                    } else {
                        seq![dragged, target]
                    }));
                    assert(out.update(t, seq![target]) =~= rest);
                    assert(stands_over(out, cols, dragged, target, below));
                } else {
                    assert(!rest.contains(seq![target])) by {
                        if rest.contains(seq![target]) {
                            let u = choose|u: int| 0 <= u < rest.len() && rest[u] == seq![target];
                            assert(seq![target][0] == target);
                            assert(rest[u].contains(target));
                            assert(rest[t].contains(target));
                            assert(u == t);
                        }
                    }
                    let k = if below {
                        t + 1
                    } else {
                        t
                    };
                    let out = rest.insert(k, seq![dragged]);
                    assert(out[k] == seq![dragged]);
                    assert(out.remove(k) =~= rest);
                    if below {
                        assert(out[k - 1] == rest[t]);
                    } else {
                        assert(out[k + 1] == rest[t]);
                    }
                    assert(stands_beside(out, cols, dragged, target, below));
                }
            },
        }
    }
}

/// Moves `dragged` into a column of its own beside that of `target`. Says whether `target` was
/// found, or nothing where `dragged` has no place and the columns stay.
pub fn move_beside(
    columns: &mut Vec<Vec<u64>>,
    dragged: u64,
    target: u64,
    after: bool,
) -> (found: Option<bool>)
    ensures
        match moved_beside(grid(old(columns)@), dragged, target, after) {
            None => found is None && grid(final(columns)@) == grid(old(columns)@),
            Some(m) => found == Some(m.1) && grid(final(columns)@) == m.0,
        },
{
    match pane_position(columns, dragged) {
        None => None,
        Some((c, r)) => {
            proof {
                lemma_place_of(grid(columns@), dragged);
            }
            take_out(columns, c, r);
            proof {
                lemma_place_of(grid(columns@), target);
            }
            match pane_position(columns, target) {
                None => {
                    let end = columns.len();
                    insert_column(columns, end, dragged);
                    Some(false)
                },
                Some((t, _)) => {
                    assert(t < columns.len());
                    let at: usize = if after {
                        t + 1
                    } else {
                        t
                    };
                    insert_column(columns, at, dragged);
                    Some(true)
                },
            }
        },
    }
}

/// Moves `dragged` above or below `target`. Says whether `target` was found, or nothing where
/// `dragged` has no place and the columns stay.
pub fn move_above_or_below(
    columns: &mut Vec<Vec<u64>>,
    dragged: u64,
    target: u64,
    below: bool,
) -> (found: Option<bool>)
    ensures
        match moved_above_or_below(grid(old(columns)@), dragged, target, below) {
            None => found is None && grid(final(columns)@) == grid(old(columns)@),
            Some(m) => found == Some(m.1) && grid(final(columns)@) == m.0,
        },
{
    match pane_position(columns, dragged) {
        None => None,
        Some((c, r)) => {
            proof {
                lemma_place_of(grid(columns@), dragged);
            }
            take_out(columns, c, r);
            proof {
                lemma_place_of(grid(columns@), target);
            }
            match pane_position(columns, target) {
                None => {
                    let end = columns.len();
                    insert_column(columns, end, dragged);
                    Some(false)
                },
                Some((t, row)) => {
                    if columns[t].len() < 2 {
                        let at: usize = if below {
                            row + 1
                        } else {
                            row
                        };
                        let ghost before = columns@;
                        let mut col = columns.remove(t);
                        col.insert(at, dragged);
                        columns.insert(t, col);
                        assert(grid(columns@) =~= grid(before).update(t as int, col@));
                    } else {
                        assert(t < columns.len());
                        let at: usize = if below {
                            t + 1
                        } else {
                            t
                        };
                        insert_column(columns, at, dragged);
                    }
                    Some(true)
                },
            }
        },
    }
}

// ---------------------------------------------------------------------------------------------
// Where a drop may go
// ---------------------------------------------------------------------------------------------
/// Where a dragged pane or thread goes.
#[derive(Clone, Copy, Debug, PartialEq, Eq, Structural)]
pub enum InsertTarget {
    Horizontal { target_pane_id: u64, after: bool },
    Vertical { target_pane_id: u64, below: bool },
}

/// Whether a pane may be dropped above or below another: within its column, or into a column of
/// one.
pub open spec fn vertical_drop_allowed(cols: Seq<Seq<u64>>, dragged: u64, target: u64) -> bool {
    match (place_of(cols, dragged), place_of(cols, target)) {
        (Some(d), Some(t)) => d.0 == t.0 || cols[t.0].len() < 2,
        _ => false,
    }
}

pub fn can_vertical_drop(columns: &Vec<Vec<u64>>, dragged_id: u64, target_id: u64) -> (r: bool)
    ensures
        r == vertical_drop_allowed(grid(columns@), dragged_id, target_id),
{
    match pane_position(columns, dragged_id) {
        None => false,
        Some((d, _)) => match pane_position(columns, target_id) {
            None => false,
            Some((t, _)) => {
                proof {
                    lemma_place_of(grid(columns@), target_id);
                }
                d == t || columns[t].len() < 2
            },
        },
    }
}

/// Whether a thread may be dropped above or below a pane: only into a column of one.
pub open spec fn vertical_thread_drop_allowed(cols: Seq<Seq<u64>>, target: u64) -> bool {
    match place_of(cols, target) {
        Some(t) => cols[t.0].len() < 2,
        None => false,
    }
}

pub fn can_vertical_thread_drop(columns: &Vec<Vec<u64>>, target_id: u64) -> (r: bool)
    ensures
        r == vertical_thread_drop_allowed(grid(columns@), target_id),
{
    match pane_position(columns, target_id) {
        None => false,
        Some((t, _)) => {
            proof {
                lemma_place_of(grid(columns@), target_id);
            }
            columns[t].len() < 2
        },
    }
}

/// What a pointer over a pane aims at: its upper or lower zone where a vertical drop is allowed,
/// else its left or right half.
pub open spec fn aimed_at(
    pane: u64,
    vertical_ok: bool,
    in_upper_zone: bool,
    in_lower_zone: bool,
    in_right_half: bool,
) -> InsertTarget {
    if vertical_ok && in_upper_zone {
        InsertTarget::Vertical { target_pane_id: pane, below: false }
    } else if vertical_ok && in_lower_zone {
        InsertTarget::Vertical { target_pane_id: pane, below: true }
    } else {
        InsertTarget::Horizontal { target_pane_id: pane, after: in_right_half }
    }
}

pub fn drop_target_for(
    pane_id: u64,
    vertical_ok: bool,
    in_upper_zone: bool,
    in_lower_zone: bool,
    in_right_half: bool,
) -> (target: InsertTarget)
    ensures
        target == aimed_at(pane_id, vertical_ok, in_upper_zone, in_lower_zone, in_right_half),
{
    if vertical_ok && in_upper_zone {
        InsertTarget::Vertical { target_pane_id: pane_id, below: false }
    } else if vertical_ok && in_lower_zone {
        InsertTarget::Vertical { target_pane_id: pane_id, below: true }
    } else {
        InsertTarget::Horizontal { target_pane_id: pane_id, after: in_right_half }
    }
}

/// What the pointer aims at while something is dragged over a pane: nothing where the pane is the
/// one being dragged.
pub open spec fn hover_target(
    cols: Seq<Seq<u64>>,
    dragging: Option<u64>,
    pane: u64,
    in_upper_zone: bool,
    in_lower_zone: bool,
    in_right_half: bool,
) -> Option<InsertTarget> {
    match dragging {
        Some(dragged) => if dragged == pane {
            None
        } else {
            Some(
                aimed_at(
                    pane,
                    vertical_drop_allowed(cols, dragged, pane),
                    in_upper_zone,
                    in_lower_zone,
                    in_right_half,
                ),
            )
        },
        None => Some(
            aimed_at(
                pane,
                vertical_thread_drop_allowed(cols, pane),
                in_upper_zone,
                in_lower_zone,
                in_right_half,
            ),
        ),
    }
}

pub fn hovered_target(
    columns: &Vec<Vec<u64>>,
    dragging: Option<u64>,
    pane_id: u64,
    in_upper_zone: bool,
    in_lower_zone: bool,
    in_right_half: bool,
) -> (target: Option<InsertTarget>)
    ensures
        target == hover_target(
            grid(columns@),
            dragging,
            pane_id,
            in_upper_zone,
            in_lower_zone,
            in_right_half,
        ),
{
    let vertical_ok = match dragging {
        Some(dragged) => {
            if dragged == pane_id {
                return None;
            }
            can_vertical_drop(columns, dragged, pane_id)
        },
        None => can_vertical_thread_drop(columns, pane_id),
    };
    Some(drop_target_for(pane_id, vertical_ok, in_upper_zone, in_lower_zone, in_right_half))
}

// ---------------------------------------------------------------------------------------------
// Gaps between columns
// ---------------------------------------------------------------------------------------------
pub open spec fn gap_name(left: u64, right: u64) -> Seq<char> {
    "multi-chat-gap-"@ + decimal(left as nat) + "-"@ + decimal(right as nat)
}

/// The name of the gap between the columns that start with two panes.
pub fn gap_widget_name(left_pane_id: u64, right_pane_id: u64) -> (name: String)
    ensures
        name@ == gap_name(left_pane_id, right_pane_id),
{
    let left = concat3("multi-chat-gap-", &decimal_text(left_pane_id), "-");
    crate::text::concat(&left, &decimal_text(right_pane_id))
}

pub open spec fn edge_gap_name(is_start: bool) -> Seq<char> {
    if is_start {
        "multi-chat-gap-edge-start"@
    } else {
        "multi-chat-gap-edge-end"@
    }
}

/// The name of the gap before the first column, or behind the last.
pub fn edge_gap_widget_name(is_start: bool) -> (name: &'static str)
    ensures
        name@ == edge_gap_name(is_start),
{
    if is_start {
        "multi-chat-gap-edge-start"
    } else {
        "multi-chat-gap-edge-end"
    }
}

/// The gap that lights up for a target: the one on that side of the pane's column; none for a
/// vertical target.
pub open spec fn gap_for(cols: Seq<Seq<u64>>, target: InsertTarget) -> Option<Seq<char>> {
    match target {
        InsertTarget::Vertical { .. } => None,
        InsertTarget::Horizontal { target_pane_id, after } => match place_of(
            cols,
            target_pane_id,
        ) {
            None => None,
            Some((c, _)) => if after {
                if c + 1 >= cols.len() {
                    Some(edge_gap_name(false))
                } else {
                    Some(gap_name(cols[c][0], cols[c + 1][0]))
                }
            } else {
                if c == 0 {
                    Some(edge_gap_name(true))
                } else {
                    Some(gap_name(cols[c - 1][0], cols[c][0]))
                }
            },
        },
    }
}

pub fn gap_for_target(columns: &Vec<Vec<u64>>, target: InsertTarget) -> (gap: Option<String>)
    requires
        one_or_two(grid(columns@)),
    ensures
        match gap {
            Some(name) => gap_for(grid(columns@), target) == Some(name@),
            None => gap_for(grid(columns@), target) is None,
        },
{
    match target {
        InsertTarget::Vertical { .. } => None,
        InsertTarget::Horizontal { target_pane_id, after } => {
            match pane_position(columns, target_pane_id) {
                None => None,
                Some((c, _)) => {
                    proof {
                        lemma_place_of(grid(columns@), target_pane_id);
                    }
                    assert(grid(columns@)[c as int].len() >= 1);
                    if after {
                        if columns.len() - c <= 1 {
                            Some(edge_gap_widget_name(false).to_owned())
                        } else {
                            assert(grid(columns@)[c + 1].len() >= 1);
                            Some(gap_widget_name(columns[c][0], columns[c + 1][0]))
                        }
                    } else if c == 0 {
                        Some(edge_gap_widget_name(true).to_owned())
                    } else {
                        assert(grid(columns@)[c - 1].len() >= 1);
                        Some(gap_widget_name(columns[c - 1][0], columns[c][0]))
                    }
                },
            }
        },
    }
}

/// What a pane dropped into the gap between two columns moves next to: the right column where it
/// leads the left one, else the left. The identifier 0 stands for a column that is not there.
pub open spec fn gap_move(left: u64, right: u64, dragged: u64) -> Option<(u64, bool)> {
    if left != 0 && right != 0 && dragged == left {
        Some((right, false))
    } else if left != 0 {
        Some((left, true))
    } else {
        None
    }
}

pub fn move_for_gap_drop(left_id: u64, right_id: u64, dragged_id: u64) -> (r: Option<(u64, bool)>)
    ensures
        r == gap_move(left_id, right_id, dragged_id),
{
    if left_id != 0 && right_id != 0 {
        if dragged_id == left_id {
            Some((right_id, false))
        } else {
            Some((left_id, true))
        }
    } else if left_id != 0 {
        Some((left_id, true))
    } else {
        None
    }
}

/// Where a thread dropped into the gap between two columns goes: behind the left one. The
/// identifier 0 stands for a column that is not there.
pub fn thread_for_gap_drop(left_id: u64) -> (r: Option<InsertTarget>)
    ensures
        r == (if left_id != 0 {
            Some(InsertTarget::Horizontal { target_pane_id: left_id, after: true })
        } else {
            None
        }),
{
    if left_id != 0 {
        Some(InsertTarget::Horizontal { target_pane_id: left_id, after: true })
    } else {
        None
    }
}

/// Where a thread dropped into the gap at an edge goes: before the first column, or behind the
/// last.
pub fn thread_for_edge_drop(column_id: u64, is_start: bool) -> (target: InsertTarget)
    ensures
        target == (InsertTarget::Horizontal { target_pane_id: column_id, after: !is_start }),
{
    InsertTarget::Horizontal { target_pane_id: column_id, after: !is_start }
}

} // verus!
