//! Stable sorting.
use vstd::prelude::*;

verus! {

/// A type whose values can be sorted.
pub trait Sortable: Sized {
    /// Whether `a` may stand before `b`.
    spec fn before(a: Self, b: Self) -> bool;

    proof fn total(a: Self, b: Self)
        ensures
            Self::before(a, b) || Self::before(b, a),
    ;

    proof fn transitive(a: Self, b: Self, c: Self)
        requires
            Self::before(a, b),
            Self::before(b, c),
        ensures
            Self::before(a, c),
    ;

    fn is_before(a: &Self, b: &Self) -> (r: bool)
        ensures
            r == Self::before(*a, *b),
    ;
}

/// `s` with `x` put in behind the last element that may stand before it.
pub open spec fn inserted<T: Sortable>(s: Seq<T>, x: T) -> Seq<T>
    decreases s.len(),
{
    if s.len() == 0 || T::before(s.last(), x) {
        s.push(x)
    } else {
        inserted(s.drop_last(), x).push(s.last())
    }
}

/// `s` in order, with equal elements in the order in which they came.
pub open spec fn stable_sorted<T: Sortable>(s: Seq<T>) -> Seq<T>
    decreases s.len(),
{
    if s.len() == 0 {
        s
    } else {
        inserted(stable_sorted(s.drop_last()), s.last())
    }
}

pub open spec fn is_sorted<T: Sortable>(s: Seq<T>) -> bool {
    forall|i: int, j: int| 0 <= i < j < s.len() ==> T::before(#[trigger] s[i], #[trigger] s[j])
}

pub proof fn lemma_inserted<T: Sortable>(s: Seq<T>, x: T)
    requires
        is_sorted(s),
    ensures
        inserted(s, x).len() == s.len() + 1,
        is_sorted(inserted(s, x)),
        inserted(s, x).to_multiset() == s.to_multiset().insert(x),
        forall|y: T| inserted(s, x).contains(y) ==> s.contains(y) || y == x,
    decreases s.len(),
{
    broadcast use vstd::seq_lib::group_to_multiset_ensures;

    if s.len() == 0 || T::before(s.last(), x) {
        assert forall|i: int, j: int| 0 <= i < j < s.push(x).len() implies T::before(
            #[trigger] s.push(x)[i],
            #[trigger] s.push(x)[j],
        ) by {
            if j == s.len() && i < s.len() - 1 {
                T::transitive(s[i], s.last(), x);
            }
        }
        assert forall|y: T| s.push(x).contains(y) implies s.contains(y) || y == x by {
            let k = choose|k: int| 0 <= k < s.push(x).len() && s.push(x)[k] == y;
            if k < s.len() {
                assert(s[k] == y);
            }
        }
    } else {
        let head = s.drop_last();
        lemma_inserted(head, x);
        T::total(s.last(), x);
        let low = inserted(head, x);
        let r = low.push(s.last());
        assert forall|i: int, j: int| 0 <= i < j < r.len() implies T::before(
            #[trigger] r[i],
            #[trigger] r[j],
        ) by {
            if j == low.len() {
                assert(low.contains(low[i]));
                if head.contains(low[i]) {
                    let k = choose|k: int| 0 <= k < head.len() && head[k] == low[i];
                    assert(T::before(s[k], s[s.len() - 1]));
                }
            }
        }
        assert(s =~= head.push(s.last()));
        assert forall|y: T| r.contains(y) implies s.contains(y) || y == x by {
            let k = choose|k: int| 0 <= k < r.len() && r[k] == y;
            if k < low.len() {
                assert(low.contains(low[k]));
                if head.contains(y) {
                    let m = choose|m: int| 0 <= m < head.len() && head[m] == y;
                    assert(s[m] == y);
                }
            } else {
                assert(s[s.len() - 1] == y);
            }
        }
    }
}

/// Sorting puts the elements in order and neither adds nor loses one.
pub proof fn lemma_stable_sorted<T: Sortable>(s: Seq<T>)
    ensures
        is_sorted(stable_sorted(s)),
        stable_sorted(s).len() == s.len(),
        stable_sorted(s).to_multiset() == s.to_multiset(),
    decreases s.len(),
{
    broadcast use vstd::seq_lib::group_to_multiset_ensures;

    if s.len() > 0 {
        lemma_stable_sorted(s.drop_last());
        lemma_inserted(stable_sorted(s.drop_last()), s.last());
        assert(s =~= s.drop_last().push(s.last()));
    }
}

/// `s` with `x` put in behind the last element that may stand before it, as `le` says.
pub open spec fn put_in_by<M>(le: spec_fn(M, M) -> bool, s: Seq<M>, x: M) -> Seq<M>
    decreases s.len(),
{
    if s.len() == 0 || le(s.last(), x) {
        s.push(x)
    } else {
        put_in_by(le, s.drop_last(), x).push(s.last())
    }
}

/// `s` in the order that `le` gives, with equal elements in the order in which they came.
pub open spec fn sorted_by<M>(le: spec_fn(M, M) -> bool, s: Seq<M>) -> Seq<M>
    decreases s.len(),
{
    if s.len() == 0 {
        s
    } else {
        put_in_by(le, sorted_by(le, s.drop_last()), s.last())
    }
}

/// The values of a list.
pub open spec fn values<T, M>(s: Seq<T>, f: spec_fn(T) -> M) -> Seq<M> {
    Seq::new(s.len(), |i: int| f(s[i]))
}

proof fn lemma_values_inserted<T: Sortable, M>(
    s: Seq<T>,
    x: T,
    f: spec_fn(T) -> M,
    le: spec_fn(M, M) -> bool,
)
    requires
        forall|a: T, b: T| #[trigger] T::before(a, b) == le(f(a), f(b)),
    ensures
        values(inserted(s, x), f) == put_in_by(le, values(s, f), f(x)),
    decreases s.len(),
{
    if s.len() == 0 || T::before(s.last(), x) {
        assert(values(s.push(x), f) =~= values(s, f).push(f(x)));
    } else {
        lemma_values_inserted(s.drop_last(), x, f, le);
        assert(values(s, f).drop_last() =~= values(s.drop_last(), f));
        let front = inserted(s.drop_last(), x);
        assert(values(front.push(s.last()), f) =~= values(front, f).push(f(s.last())));
    }
}

/// Where the order of elements depends on their values alone, sorting the elements sorts the
/// values.
pub proof fn lemma_values_sorted<T: Sortable, M>(
    s: Seq<T>,
    f: spec_fn(T) -> M,
    le: spec_fn(M, M) -> bool,
)
    requires
        forall|a: T, b: T| #[trigger] T::before(a, b) == le(f(a), f(b)),
    ensures
        values(stable_sorted(s), f) == sorted_by(le, values(s, f)),
    decreases s.len(),
{
    if s.len() > 0 {
        lemma_values_sorted(s.drop_last(), f, le);
        lemma_values_inserted(stable_sorted(s.drop_last()), s.last(), f, le);
        assert(values(s, f).drop_last() =~= values(s.drop_last(), f));
    } else {
        assert(values(s, f) =~= Seq::empty());
    }
}

/// Whether an order holds between any two elements one way or the other, and carries on.
pub open spec fn is_order<M>(le: spec_fn(M, M) -> bool) -> bool {
    &&& forall|a: M, b: M| #[trigger] le(a, b) || le(b, a)
    &&& forall|a: M, b: M, c: M| #[trigger] le(a, b) && #[trigger] le(b, c) ==> le(a, c)
}

/// The elements that an order does not tell from a given one.
pub open spec fn like<M>(le: spec_fn(M, M) -> bool, x: M) -> spec_fn(M) -> bool {
    |y: M| le(x, y) && le(y, x)
}

pub open spec fn stands_in_order<M>(le: spec_fn(M, M) -> bool, s: Seq<M>) -> bool {
    forall|i: int, j: int| 0 <= i < j < s.len() ==> le(#[trigger] s[i], #[trigger] s[j])
}

proof fn lemma_put_in<M>(le: spec_fn(M, M) -> bool, s: Seq<M>, x: M, one: M)
    requires
        is_order(le),
        stands_in_order(le, s),
    ensures
        stands_in_order(le, put_in_by(le, s, x)),
        put_in_by(le, s, x).len() == s.len() + 1,
        put_in_by(le, s, x).to_multiset() == s.to_multiset().insert(x),
        put_in_by(le, s, x).filter(like(le, one)) == s.push(x).filter(like(le, one)),
        forall|y: M| #[trigger] put_in_by(le, s, x).contains(y) ==> s.contains(y) || y == x,
    decreases s.len(),
{
    broadcast use vstd::seq_lib::group_to_multiset_ensures;

    reveal(Seq::filter);
    if s.len() == 0 || le(s.last(), x) {
        let r = s.push(x);
        assert forall|i: int, j: int| 0 <= i < j < r.len() implies le(
            #[trigger] r[i],
            #[trigger] r[j],
        ) by {
            if j == s.len() && i < s.len() - 1 {
                assert(le(s[i], s[s.len() - 1]));
            }
        }
        assert forall|y: M| #[trigger] r.contains(y) implies s.contains(y) || y == x by {
            let k = choose|k: int| 0 <= k < r.len() && r[k] == y;
            if k < s.len() {
                assert(s[k] == y);
            }
        }
    } else {
        let rest = s.drop_last();
        let last = s.last();
        lemma_put_in(le, rest, x, one);
        let head = put_in_by(le, rest, x);
        let r = head.push(last);
        assert(le(x, last));
        assert forall|i: int, j: int| 0 <= i < j < r.len() implies le(
            #[trigger] r[i],
            #[trigger] r[j],
        ) by {
            if j == head.len() {
                assert(head.contains(head[i]));
                if head[i] != x {
                    let k = choose|k: int| 0 <= k < rest.len() && rest[k] == head[i];
                    assert(s[k] == head[i]);
                    assert(le(s[k], s[s.len() - 1]));
                }
            }
        }
        assert(rest.push(last) =~= s);
        assert(r.to_multiset() =~= s.to_multiset().insert(x));
        assert(r.drop_last() =~= head);
        assert(rest.push(x).drop_last() =~= rest);
        assert(s.push(x).drop_last() =~= s);
        let c = like(le, one);
        assert(!(c(x) && c(last))) by {
            if c(x) && c(last) {
                assert(le(last, one) && le(one, x));
            }
        }
        assert(rest.push(x).last() == x);
        assert(head.filter(c) == rest.push(x).filter(c));
        assert(r.filter(c) == if c(last) {
            head.filter(c).push(last)
        } else {
            head.filter(c)
        });
        assert(s.filter(c) == if c(last) {
            rest.filter(c).push(last)
        } else {
            rest.filter(c)
        });
        assert(s.push(x).filter(c) == if c(x) {
            s.filter(c).push(x)
        } else {
            s.filter(c)
        });
        assert forall|y: M| #[trigger] r.contains(y) implies s.contains(y) || y == x by {
            let k = choose|k: int| 0 <= k < r.len() && r[k] == y;
            if k < head.len() {
                assert(head.contains(y));
                if y != x {
                    let m = choose|m: int| 0 <= m < rest.len() && rest[m] == y;
                    assert(s[m] == y);
                }
            } else {
                assert(s[s.len() - 1] == y);
            }
        }
    }
}

/// Sorting puts the elements in order, keeps all of them and adds none, and leaves those that the
/// order does not tell apart in the order in which they came.
pub proof fn lemma_sorted_by<M>(le: spec_fn(M, M) -> bool, s: Seq<M>, one: M)
    requires
        is_order(le),
    ensures
        stands_in_order(le, sorted_by(le, s)),
        sorted_by(le, s).len() == s.len(),
        sorted_by(le, s).to_multiset() == s.to_multiset(),
        sorted_by(le, s).filter(like(le, one)) == s.filter(like(le, one)),
        forall|y: M| #[trigger] sorted_by(le, s).contains(y) <==> s.contains(y),
    decreases s.len(),
{
    broadcast use vstd::seq_lib::group_to_multiset_ensures;

    reveal(Seq::filter);
    if s.len() > 0 {
        let rest = s.drop_last();
        lemma_sorted_by(le, rest, one);
        lemma_put_in(le, sorted_by(le, rest), s.last(), one);
        assert(rest.push(s.last()) =~= s);
        assert(sorted_by(le, rest).push(s.last()).drop_last() =~= sorted_by(le, rest));
    }
    assert forall|y: M| #[trigger] sorted_by(le, s).contains(y) <==> s.contains(y) by {
        assert(sorted_by(le, s).to_multiset().count(y) == s.to_multiset().count(y));
    }
}

fn insert_sorted<T: Sortable>(items: &mut Vec<T>, x: T)
    ensures
        final(items)@ == inserted(old(items)@, x),
    decreases old(items)@.len(),
{
    match items.pop() {
        None => {
            items.push(x);
        },
        Some(last) => {
            let ghost head = items@;
            assert(old(items)@.drop_last() =~= head);
            if T::is_before(&last, &x) {
                items.push(last);
                assert(items@ =~= old(items)@);
                items.push(x);
            } else {
                insert_sorted(items, x);
                items.push(last);
            }
        },
    }
}

pub fn stable_sort<T: Sortable>(items: Vec<T>) -> (sorted: Vec<T>)
    ensures
        sorted@ == stable_sorted(items@),
{
    let mut rest = items;
    stable_sort_all(&mut rest)
}

fn stable_sort_all<T: Sortable>(items: &mut Vec<T>) -> (sorted: Vec<T>)
    ensures
        sorted@ == stable_sorted(old(items)@),
    decreases old(items)@.len(),
{
    match items.pop() {
        None => Vec::new(),
        Some(last) => {
            assert(old(items)@.drop_last() =~= items@);
            let mut sorted = stable_sort_all(items);
            insert_sorted(&mut sorted, last);
            sorted
        },
    }
}

} // verus!
