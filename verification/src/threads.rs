//! The threads of the sidebar: their records and the order they are listed in.
use crate::text::owned;
use vstd::prelude::*;
#[allow(unused_imports)]
use crate::layout_store::text_of_option;

verus! {

/// A thread as it is stored.
#[derive(Debug)]
pub struct ThreadRecord {
    pub id: i64,
    pub profile_id: i64,
    pub parent_thread_id: Option<i64>,
    pub title: String,
    pub remote_thread_id: Option<String>,
    pub remote_account_type: Option<String>,
    pub remote_account_email: Option<String>,
    pub worktree_path: Option<String>,
    pub worktree_active: bool,
    pub created_at: i64,
}

#[verifier::ext_equal]
pub ghost struct ThreadModel {
    pub id: i64,
    pub profile: i64,
    pub parent: Option<i64>,
    pub title: Seq<char>,
    pub remote: Option<Seq<char>>,
    pub account_type: Option<Seq<char>>,
    pub account_email: Option<Seq<char>>,
    pub worktree: Option<Seq<char>>,
    pub worktree_active: bool,
    pub created_at: i64,
}

pub open spec fn thread_models(threads: Seq<ThreadRecord>) -> Seq<ThreadModel> {
    Seq::new(threads.len(), |i: int| threads[i].model())
}

pub(crate) fn copy_option(text: &Option<String>) -> (r: Option<String>)
    ensures
        text_of_option(r) == text_of_option(*text),
{
    match text {
        Some(s) => Some(owned(s.as_str())),
        None => None,
    }
}

impl ThreadRecord {
    pub open spec fn model(self) -> ThreadModel {
        ThreadModel {
            id: self.id,
            profile: self.profile_id,
            parent: self.parent_thread_id,
            title: self.title@,
            remote: text_of_option(self.remote_thread_id),
            account_type: text_of_option(self.remote_account_type),
            account_email: text_of_option(self.remote_account_email),
            worktree: text_of_option(self.worktree_path),
            worktree_active: self.worktree_active,
            created_at: self.created_at,
        }
    }

    pub fn copy(&self) -> (r: ThreadRecord)
        ensures
            r.model() == self.model(),
    {
        ThreadRecord {
            id: self.id,
            profile_id: self.profile_id,
            parent_thread_id: self.parent_thread_id,
            title: owned(self.title.as_str()),
            remote_thread_id: copy_option(&self.remote_thread_id),
            remote_account_type: copy_option(&self.remote_account_type),
            remote_account_email: copy_option(&self.remote_account_email),
            worktree_path: copy_option(&self.worktree_path),
            worktree_active: self.worktree_active,
            created_at: self.created_at,
        }
    }
}

// ---------------------------------------------------------------------------------------------
// The order of the list
// ---------------------------------------------------------------------------------------------
/// Whether one of the threads has an identifier.
pub open spec fn has_id(threads: Seq<ThreadModel>, id: i64) -> bool {
    exists|i: int| 0 <= i < threads.len() && (#[trigger] threads[i]).id == id
}

/// Whether a thread stands at the top: it has no parent, or one that is not in the list.
pub open spec fn is_root(threads: Seq<ThreadModel>, i: int) -> bool {
    match threads[i].parent {
        Some(parent) => !has_id(threads, parent),
        None => true,
    }
}

/// The indices below `k` of the threads at the top.
pub open spec fn roots(threads: Seq<ThreadModel>, k: nat) -> Seq<int>
    decreases k,
{
    if k == 0 {
        Seq::empty()
    } else if is_root(threads, k - 1) {
        roots(threads, (k - 1) as nat).push(k - 1)
    } else {
        roots(threads, (k - 1) as nat)
    }
}

/// The indices below `k` of the threads whose parent has an identifier.
pub open spec fn children(threads: Seq<ThreadModel>, id: i64, k: nat) -> Seq<int>
    decreases k,
{
    if k == 0 {
        Seq::empty()
    } else if threads[k - 1].parent == Some(id) {
        children(threads, id, (k - 1) as nat).push(k - 1)
    } else {
        children(threads, id, (k - 1) as nat)
    }
}

/// Whether one of the threads listed so far has an identifier.
pub open spec fn listed(threads: Seq<ThreadModel>, out: Seq<int>, id: i64) -> bool {
    exists|p: int| 0 <= p < out.len() && threads[#[trigger] out[p]].id == id
}

/// Lists the threads of `todo` in order, each followed by its children, and none whose identifier
/// is listed already. Nothing is left to add once as many are listed as there are threads.
pub open spec fn walked(threads: Seq<ThreadModel>, todo: Seq<int>, out: Seq<int>) -> Seq<int>
    decreases threads.len() - out.len(), todo.len(),
{
    if todo.len() == 0 || out.len() >= threads.len() {
        out
    } else {
        let i = todo.first();
        let rest = todo.drop_first();
        if listed(threads, out, threads[i].id) {
            walked(threads, rest, out)
        } else {
            walked(
                threads,
                children(threads, threads[i].id, threads.len()) + rest,
                out.push(i),
            )
        }
    }
}

/// `out`, followed by the threads below `k` whose identifiers it lacks.
pub open spec fn with_rest(threads: Seq<ThreadModel>, out: Seq<int>, k: nat) -> Seq<int>
    decreases k,
{
    if k == 0 {
        out
    } else {
        let before = with_rest(threads, out, (k - 1) as nat);
        if listed(threads, before, threads[k - 1].id) {
            before
        } else {
            before.push(k - 1)
        }
    }
}

/// The indices of the threads in the order in which they are listed.
pub open spec fn display_order(threads: Seq<ThreadModel>) -> Seq<int> {
    with_rest(
        threads,
        walked(threads, roots(threads, threads.len()), Seq::empty()),
        threads.len(),
    )
}

pub open spec fn in_order(threads: Seq<ThreadModel>, order: Seq<int>) -> Seq<ThreadModel> {
    Seq::new(order.len(), |p: int| threads[order[p]])
}

pub open spec fn as_ints(indices: Seq<usize>) -> Seq<int> {
    Seq::new(indices.len(), |p: int| indices[p] as int)
}

/// Whether indices are in range and no identifier comes twice.
pub open spec fn lists_once(threads: Seq<ThreadModel>, out: Seq<int>) -> bool {
    &&& forall|p: int| 0 <= p < out.len() ==> 0 <= #[trigger] out[p] < threads.len()
    &&& forall|p: int, q: int|
        0 <= p < q < out.len() ==> threads[#[trigger] out[p]].id != threads[#[trigger] out[q]].id
}

pub open spec fn in_range(threads: Seq<ThreadModel>, out: Seq<int>) -> bool {
    forall|p: int| 0 <= p < out.len() ==> 0 <= #[trigger] out[p] < threads.len()
}

fn id_among(threads: &Vec<ThreadRecord>, id: i64) -> (r: bool)
    ensures
        r == has_id(thread_models(threads@), id),
{
    let ghost all = thread_models(threads@);
    let mut i: usize = 0;
    while i < threads.len()
        invariant
            i <= threads@.len(),
            all == thread_models(threads@),
            forall|j: int| 0 <= j < i ==> (#[trigger] all[j]).id != id,
        decreases threads@.len() - i,
    {
        assert(all[i as int] == threads@[i as int].model());
        if threads[i].id == id {
            return true;
        }
        i = i + 1;
    }
    false
}

fn listed_among(threads: &Vec<ThreadRecord>, out: &Vec<usize>, id: i64) -> (r: bool)
    requires
        in_range(thread_models(threads@), as_ints(out@)),
    ensures
        r == listed(thread_models(threads@), as_ints(out@), id),
{
    let ghost all = thread_models(threads@);
    let ghost seen = as_ints(out@);
    let mut p: usize = 0;
    while p < out.len()
        invariant
            p <= out@.len(),
            all == thread_models(threads@),
            seen == as_ints(out@),
            in_range(all, seen),
            forall|q: int| 0 <= q < p ==> all[#[trigger] seen[q]].id != id,
        decreases out@.len() - p,
    {
        assert(seen[p as int] == out@[p as int]);
        assert(all[seen[p as int]] == threads@[out@[p as int] as int].model());
        if threads[out[p]].id == id {
            return true;
        }
        p = p + 1;
    }
    false
}

fn root_indices(threads: &Vec<ThreadRecord>) -> (out: Vec<usize>)
    ensures
        as_ints(out@) == roots(thread_models(threads@), threads@.len()),
{
    let ghost all = thread_models(threads@);
    let mut out: Vec<usize> = Vec::new();
    let mut k: usize = 0;
    while k < threads.len()
        invariant
            k <= threads@.len(),
            all == thread_models(threads@),
            as_ints(out@) =~= roots(all, k as nat),
        decreases threads@.len() - k,
    {
        assert(all[k as int] == threads@[k as int].model());
        let root = match threads[k].parent_thread_id {
            Some(parent) => !id_among(threads, parent),
            None => true,
        };
        let ghost before = out@;
        if root {
            out.push(k);
            assert(as_ints(out@) =~= as_ints(before).push(k as int));
        }
        k = k + 1;
    }
    out
}

fn child_indices(threads: &Vec<ThreadRecord>, id: i64) -> (out: Vec<usize>)
    ensures
        as_ints(out@) == children(thread_models(threads@), id, threads@.len()),
{
    let ghost all = thread_models(threads@);
    let mut out: Vec<usize> = Vec::new();
    let mut k: usize = 0;
    while k < threads.len()
        invariant
            k <= threads@.len(),
            all == thread_models(threads@),
            as_ints(out@) =~= children(all, id, k as nat),
        decreases threads@.len() - k,
    {
        assert(all[k as int] == threads@[k as int].model());
        let ghost before = out@;
        let child = match threads[k].parent_thread_id {
            Some(parent) => parent == id,
            None => false,
        };
        if child {
            out.push(k);
            assert(as_ints(out@) =~= as_ints(before).push(k as int));
        }
        k = k + 1;
    }
    out
}

proof fn lemma_roots_in_range(threads: Seq<ThreadModel>, k: nat)
    requires
        k <= threads.len(),
    ensures
        in_range(threads, roots(threads, k)),
        forall|p: int|
            0 <= p < roots(threads, k).len() ==> is_root(
                threads,
                #[trigger] roots(threads, k)[p],
            ),
        forall|i: int|
            0 <= i < k && #[trigger] is_root(threads, i) ==> roots(threads, k).contains(i),
    decreases k,
{
    if k > 0 {
        lemma_roots_in_range(threads, (k - 1) as nat);
        let before = roots(threads, (k - 1) as nat);
        let now = roots(threads, k);
        assert forall|i: int| 0 <= i < k && #[trigger] is_root(threads, i) implies now.contains(
            i,
        ) by {
            if i == k - 1 {
                assert(now.last() == i);
            } else {
                let p = before.index_of(i);
                assert(now[p] == i);
            }
        }
    }
}

proof fn lemma_children_in_range(threads: Seq<ThreadModel>, id: i64, k: nat)
    requires
        k <= threads.len(),
    ensures
        in_range(threads, children(threads, id, k)),
        forall|p: int|
            0 <= p < children(threads, id, k).len() ==> threads[#[trigger] children(
                threads,
                id,
                k,
            )[p]].parent == Some(id),
        forall|i: int|
            0 <= i < k && (#[trigger] threads[i]).parent == Some(id) ==> children(
                threads,
                id,
                k,
            ).contains(i),
    decreases k,
{
    if k > 0 {
        lemma_children_in_range(threads, id, (k - 1) as nat);
        let before = children(threads, id, (k - 1) as nat);
        let now = children(threads, id, k);
        assert forall|i: int| 0 <= i < k && (#[trigger] threads[i]).parent == Some(
            id,
        ) implies now.contains(i) by {
            if i == k - 1 {
                assert(now.last() == i);
            } else {
                let p = before.index_of(i);
                assert(now[p] == i);
            }
        }
    }
}

/// The indices of the threads in the order in which they are listed.
pub fn display_indices(threads: &Vec<ThreadRecord>) -> (out: Vec<usize>)
    ensures
        as_ints(out@) == display_order(thread_models(threads@)),
        in_range(thread_models(threads@), as_ints(out@)),
{
    let ghost all = thread_models(threads@);
    let mut todo = root_indices(threads);
    let mut out: Vec<usize> = Vec::new();
    proof {
        lemma_roots_in_range(all, all.len());
        assert(as_ints(out@) =~= Seq::<int>::empty());
    }
    while todo.len() > 0 && out.len() < threads.len()
        invariant
            all == thread_models(threads@),
            in_range(all, as_ints(todo@)),
            in_range(all, as_ints(out@)),
            walked(all, as_ints(todo@), as_ints(out@)) == walked(
                all,
                roots(all, all.len()),
                Seq::empty(),
            ),
        decreases threads@.len() - out@.len(), todo@.len(),
    {
        let ghost todo_before = as_ints(todo@);
        let ghost out_before = as_ints(out@);
        let i = todo.remove(0);
        assert(todo_before.first() == i as int);
        assert(as_ints(todo@) =~= todo_before.drop_first());
        assert(in_range(all, as_ints(todo@))) by {
            assert forall|p: int| 0 <= p < todo@.len() implies 0 <= #[trigger] as_ints(todo@)[p]
                < all.len() by {
                assert(as_ints(todo@)[p] == todo_before[p + 1]);
            }
        }
        assert(all[i as int] == threads@[i as int].model());
        let id = threads[i].id;
        if !listed_among(threads, &out, id) {
            let mut next = child_indices(threads, id);
            proof {
                lemma_children_in_range(all, id, all.len());
            }
            let ghost kids = as_ints(next@);
            next.append(&mut todo);
            assert(as_ints(next@) =~= kids + todo_before.drop_first());
            todo = next;
            out.push(i);
            assert(as_ints(out@) =~= out_before.push(i as int));
        }
    }
    let ghost first = as_ints(out@);
    let mut k: usize = 0;
    while k < threads.len()
        invariant
            k <= threads@.len(),
            all == thread_models(threads@),
            in_range(all, as_ints(out@)),
            as_ints(out@) == with_rest(all, first, k as nat),
        decreases threads@.len() - k,
    {
        let ghost before = as_ints(out@);
        assert(all[k as int] == threads@[k as int].model());
        if !listed_among(threads, &out, threads[k].id) {
            out.push(k);
            assert(as_ints(out@) =~= before.push(k as int));
        }
        k = k + 1;
    }
    out
}

/// The threads in the order in which they are listed: each thread is followed by those that were
/// forked from it.
pub fn ordered_threads_for_display(threads: &Vec<ThreadRecord>) -> (out: Vec<ThreadRecord>)
    ensures
        thread_models(out@) == in_order(
            thread_models(threads@),
            display_order(thread_models(threads@)),
        ),
{
    let ghost all = thread_models(threads@);
    let order = display_indices(threads);
    let mut out: Vec<ThreadRecord> = Vec::new();
    let mut p: usize = 0;
    while p < order.len()
        invariant
            p <= order@.len(),
            all == thread_models(threads@),
            in_range(all, as_ints(order@)),
            thread_models(out@) =~= in_order(all, as_ints(order@).take(p as int)),
        decreases order@.len() - p,
    {
        assert(as_ints(order@)[p as int] == order@[p as int]);
        let ghost before = thread_models(out@);
        out.push(threads[order[p]].copy());
        assert(thread_models(out@) =~= before.push(all[order@[p as int] as int]));
        p = p + 1;
    }
    assert(as_ints(order@).take(p as int) =~= as_ints(order@));
    out
}

// ---------------------------------------------------------------------------------------------
// What holds of the order
// ---------------------------------------------------------------------------------------------
/// Where `out` lists a thread, each of its children is listed or still to come.
spec fn closed_but_for(threads: Seq<ThreadModel>, todo: Seq<int>, out: Seq<int>) -> bool {
    forall|p: int, c: int|
        0 <= p < out.len() && 0 <= c < threads.len() && (#[trigger] threads[c]).parent == Some(
            threads[#[trigger] out[p]].id,
        ) ==> listed(threads, out, threads[c].id) || todo.contains(c)
}

/// A thread of the list is at the top, or comes after a thread that has its parent's identifier.
pub open spec fn follows_parent(threads: Seq<ThreadModel>, out: Seq<int>, p: int) -> bool {
    is_root(threads, out[p]) || exists|q: int|
        0 <= q < p && Some(threads[#[trigger] out[q]].id) == threads[out[p]].parent
}

spec fn parents_listed(threads: Seq<ThreadModel>, todo: Seq<int>, out: Seq<int>) -> bool {
    forall|t: int|
        0 <= t < todo.len() ==> is_root(threads, #[trigger] todo[t]) || (
        threads[todo[t]].parent is Some && listed(threads, out, threads[todo[t]].parent->0))
}

/// The identifiers of `threads` and of a list of as many of them without repetition are the same.
proof fn lemma_full_list(threads: Seq<ThreadModel>, out: Seq<int>, i: int)
    requires
        lists_once(threads, out),
        out.len() >= threads.len(),
        0 <= i < threads.len(),
    ensures
        listed(threads, out, threads[i].id),
{
    if !out.contains(i) {
        let s = Seq::new(out.len(), |p: int| out[p]);
        assert(s =~= out);
        assert(out.no_duplicates());
        let values = out.to_set();
        let range = vstd::set_lib::set_int_range(0, threads.len() as int).remove(i);
        vstd::set_lib::lemma_int_range(0, threads.len() as int);
        out.unique_seq_to_set();
        assert(values.subset_of(range));
        vstd::set_lib::lemma_len_subset(values, range);
    } else {
        let p = out.index_of(i);
        assert(out[p] == i);
    }
}

spec fn all_follow(threads: Seq<ThreadModel>, out: Seq<int>) -> bool {
    forall|p: int| 0 <= p < out.len() ==> #[trigger] follows_parent(threads, out, p)
}

/// Passing over the first thread that is to come.
proof fn lemma_passed(threads: Seq<ThreadModel>, todo: Seq<int>, out: Seq<int>)
    requires
        todo.len() > 0,
        in_range(threads, todo),
        parents_listed(threads, todo, out),
    ensures
        in_range(threads, todo.drop_first()),
        parents_listed(threads, todo.drop_first(), out),
{
    let rest = todo.drop_first();
    assert forall|t: int| 0 <= t < rest.len() implies 0 <= #[trigger] rest[t] < threads.len() by {
        assert(rest[t] == todo[t + 1]);
    }
    assert forall|t: int| 0 <= t < rest.len() implies is_root(threads, #[trigger] rest[t]) || (
    threads[rest[t]].parent is Some && listed(threads, out, threads[rest[t]].parent->0)) by {
        assert(rest[t] == todo[t + 1]);
    }
}

/// Listing the first thread that is to come, and putting its children in its place.
proof fn lemma_taken(threads: Seq<ThreadModel>, todo: Seq<int>, out: Seq<int>)
    requires
        todo.len() > 0,
        in_range(threads, todo),
        lists_once(threads, out),
        parents_listed(threads, todo, out),
        all_follow(threads, out),
        !listed(threads, out, threads[todo.first()].id),
    ensures
        ({
            let i = todo.first();
            let next = children(threads, threads[i].id, threads.len()) + todo.drop_first();
            &&& in_range(threads, next)
            &&& lists_once(threads, out.push(i))
            &&& parents_listed(threads, next, out.push(i))
            &&& all_follow(threads, out.push(i))
        }),
{
    let i = todo.first();
    let rest = todo.drop_first();
    let kids = children(threads, threads[i].id, threads.len());
    let next = kids + rest;
    let now = out.push(i);
    assert(todo[0] == i);
    lemma_passed(threads, todo, out);
    lemma_children_in_range(threads, threads[i].id, threads.len());
    assert(now[out.len() as int] == i);
    assert(listed(threads, now, threads[i].id));
    assert(lists_once(threads, now)) by {
        assert forall|p: int, q: int| 0 <= p < q < now.len() implies threads[#[trigger] now[p]].id
            != threads[#[trigger] now[q]].id by {
            assert(now[p] == out[p]);
            if q < out.len() {
                assert(now[q] == out[q]);
            }
        }
        assert forall|p: int| 0 <= p < now.len() implies 0 <= #[trigger] now[p]
            < threads.len() by {
            if p < out.len() {
                assert(now[p] == out[p]);
            }
        }
    }
    assert(parents_listed(threads, next, now)) by {
        assert forall|t: int| 0 <= t < next.len() implies is_root(threads, #[trigger] next[t]) || (
        threads[next[t]].parent is Some && listed(threads, now, threads[next[t]].parent->0)) by {
            if t < kids.len() {
                assert(next[t] == kids[t]);
            } else {
                assert(next[t] == rest[t - kids.len()]);
                if !is_root(threads, next[t]) {
                    lemma_prefix_listed(threads, out, now, threads[next[t]].parent->0);
                }
            }
        }
    }
    assert forall|p: int| 0 <= p < now.len() implies #[trigger] follows_parent(
        threads,
        now,
        p,
    ) by {
        if p < out.len() {
            assert(follows_parent(threads, out, p));
            assert(now[p] == out[p]);
            if !is_root(threads, out[p]) {
                let q = choose|q: int|
                    0 <= q < p && Some(threads[#[trigger] out[q]].id) == threads[out[p]].parent;
                assert(now[q] == out[q]);
            }
        } else if !is_root(threads, i) {
            let q = choose|q: int|
                0 <= q < out.len() && threads[#[trigger] out[q]].id == threads[i].parent->0;
            assert(now[q] == out[q]);
        }
    }
    assert(in_range(threads, next)) by {
        assert forall|t: int| 0 <= t < next.len() implies 0 <= #[trigger] next[t]
            < threads.len() by {
            if t < kids.len() {
                assert(next[t] == kids[t]);
            } else {
                assert(next[t] == rest[t - kids.len()]);
            }
        }
    }
}

proof fn lemma_walked(threads: Seq<ThreadModel>, todo: Seq<int>, out: Seq<int>)
    requires
        in_range(threads, todo),
        lists_once(threads, out),
        closed_but_for(threads, todo, out),
        parents_listed(threads, todo, out),
        all_follow(threads, out),
    ensures
        ({
            let all = walked(threads, todo, out);
            &&& lists_once(threads, all)
            &&& out.is_prefix_of(all)
            &&& forall|t: int|
                0 <= t < todo.len() ==> listed(threads, all, threads[#[trigger] todo[t]].id)
            &&& closed_but_for(threads, Seq::empty(), all)
            &&& all_follow(threads, all)
        }),
    decreases threads.len() - out.len(), todo.len(),
{
    if todo.len() == 0 {
    } else if out.len() >= threads.len() {
        assert forall|t: int| 0 <= t < todo.len() implies listed(
            threads,
            out,
            threads[#[trigger] todo[t]].id,
        ) by {
            lemma_full_list(threads, out, todo[t]);
        }
        assert forall|p: int, c: int|
            0 <= p < out.len() && 0 <= c < threads.len() && (#[trigger] threads[c]).parent == Some(
                threads[#[trigger] out[p]].id,
            ) implies listed(threads, out, threads[c].id) by {
            lemma_full_list(threads, out, c);
        }
    } else {
        let i = todo.first();
        let rest = todo.drop_first();
        assert(todo[0] == i);
        if listed(threads, out, threads[i].id) {
            assert forall|p: int, c: int|
                0 <= p < out.len() && 0 <= c < threads.len() && (
                #[trigger] threads[c]).parent == Some(threads[#[trigger] out[p]].id) implies listed(
                threads,
                out,
                threads[c].id,
            ) || rest.contains(c) by {
                if todo.contains(c) && c != i {
                    let t = todo.index_of(c);
                    assert(rest[t - 1] == c);
                }
            }
            lemma_passed(threads, todo, out);
            lemma_walked(threads, rest, out);
            let all = walked(threads, rest, out);
            lemma_prefix_listed(threads, out, all, threads[i].id);
            assert forall|t: int| 0 <= t < todo.len() implies listed(
                threads,
                all,
                threads[#[trigger] todo[t]].id,
            ) by {
                if t > 0 {
                    assert(rest[t - 1] == todo[t]);
                }
            }
        } else {
            let kids = children(threads, threads[i].id, threads.len());
            let next = kids + rest;
            let now = out.push(i);
            lemma_children_in_range(threads, threads[i].id, threads.len());
            lemma_taken(threads, todo, out);
            assert(now[out.len() as int] == i);
            assert(closed_but_for(threads, next, now)) by {
                assert forall|p: int, c: int|
                    0 <= p < now.len() && 0 <= c < threads.len() && (
                    #[trigger] threads[c]).parent == Some(
                        threads[#[trigger] now[p]].id,
                    ) implies listed(threads, now, threads[c].id) || next.contains(c) by {
                    if p == out.len() {
                        let t = kids.index_of(c);
                        assert(next[t] == c);
                    } else {
                        assert(now[p] == out[p]);
                        if listed(threads, out, threads[c].id) {
                            lemma_prefix_listed(threads, out, now, threads[c].id);
                        } else if c != i {
                            let t = todo.index_of(c);
                            assert(next[kids.len() + t - 1] == c);
                        }
                    }
                }
            }
            lemma_walked(threads, next, now);
            let all = walked(threads, next, now);
            lemma_prefix_listed(threads, now, all, threads[i].id);
            assert forall|t: int| 0 <= t < todo.len() implies listed(
                threads,
                all,
                threads[#[trigger] todo[t]].id,
            ) by {
                if t > 0 {
                    assert(next[kids.len() + t - 1] == todo[t]);
                }
            }
            assert(out.is_prefix_of(all)) by {
                assert forall|p: int| 0 <= p < out.len() implies out[p] == all[p] by {
                    assert(now[p] == out[p]);
                }
            }
        }
    }
}

proof fn lemma_prefix_listed(threads: Seq<ThreadModel>, a: Seq<int>, b: Seq<int>, id: i64)
    requires
        a.is_prefix_of(b),
        listed(threads, a, id),
    ensures
        listed(threads, b, id),
{
    let p = choose|p: int| 0 <= p < a.len() && threads[#[trigger] a[p]].id == id;
    assert(b[p] == a[p]);
}

proof fn lemma_with_rest(threads: Seq<ThreadModel>, out: Seq<int>, k: nat)
    requires
        lists_once(threads, out),
        k <= threads.len(),
    ensures
        lists_once(threads, with_rest(threads, out, k)),
        out.is_prefix_of(with_rest(threads, out, k)),
        forall|i: int|
            0 <= i < k ==> listed(
                threads,
                with_rest(threads, out, k),
                (#[trigger] threads[i]).id,
            ),
        (forall|i: int| 0 <= i < k ==> listed(threads, out, (#[trigger] threads[i]).id))
            ==> with_rest(threads, out, k) == out,
    decreases k,
{
    if k > 0 {
        let before = with_rest(threads, out, (k - 1) as nat);
        let now = with_rest(threads, out, k);
        lemma_with_rest(threads, out, (k - 1) as nat);
        if !listed(threads, before, threads[k - 1].id) {
            assert(now[before.len() as int] == k - 1);
            assert forall|p: int, q: int| 0 <= p < q < now.len() implies threads[
            #[trigger] now[p]].id != threads[#[trigger] now[q]].id by {
                assert(now[p] == before[p]);
                if q < before.len() {
                    assert(now[q] == before[q]);
                }
            }
            assert forall|i: int| 0 <= i < k implies listed(
                threads,
                now,
                (#[trigger] threads[i]).id,
            ) by {
                if i < k - 1 {
                    lemma_prefix_listed(threads, before, now, threads[i].id);
                }
            }
            if forall|i: int| 0 <= i < k ==> listed(threads, out, (#[trigger] threads[i]).id) {
                lemma_prefix_listed(threads, out, before, threads[k - 1].id);
            }
        }
    }
}

proof fn lemma_roots_walked(threads: Seq<ThreadModel>)
    ensures
        ({
            let all = walked(threads, roots(threads, threads.len()), Seq::empty());
            &&& lists_once(threads, all)
            &&& closed_but_for(threads, Seq::empty(), all)
            &&& all_follow(threads, all)
            &&& forall|i: int|
                0 <= i < threads.len() && #[trigger] is_root(threads, i) ==> listed(
                    threads,
                    all,
                    threads[i].id,
                )
        }),
{
    let tops = roots(threads, threads.len());
    lemma_roots_in_range(threads, threads.len());
    lemma_walked(threads, tops, Seq::empty());
    let all = walked(threads, tops, Seq::empty());
    assert forall|i: int| 0 <= i < threads.len() && #[trigger] is_root(threads, i) implies listed(
        threads,
        all,
        threads[i].id,
    ) by {
        let t = tops.index_of(i);
        assert(tops[t] == i);
    }
}

/// Every thread is listed, and none twice: the identifiers of the list are those of the threads,
/// each once.
pub proof fn lemma_each_thread_once(threads: Seq<ThreadModel>)
    ensures
        lists_once(threads, display_order(threads)),
        forall|i: int|
            0 <= i < threads.len() ==> listed(
                threads,
                display_order(threads),
                (#[trigger] threads[i]).id,
            ),
{
    lemma_roots_walked(threads);
    lemma_with_rest(
        threads,
        walked(threads, roots(threads, threads.len()), Seq::empty()),
        threads.len(),
    );
}

/// Whether a thread comes from the top in at most so many steps: it stands there itself, or was
/// forked from a thread that does in one step less.
pub open spec fn from_top(threads: Seq<ThreadModel>, i: int, steps: nat) -> bool
    decreases steps,
{
    is_root(threads, i) || (steps > 0 && exists|j: int|
        0 <= j < threads.len() && threads[i].parent == Some((#[trigger] threads[j]).id) && from_top(
            threads,
            j,
            (steps - 1) as nat,
        ))
}

/// Whether a thread comes from the top.
pub open spec fn is_grounded(threads: Seq<ThreadModel>, i: int) -> bool {
    exists|steps: nat| from_top(threads, i, steps)
}

/// Whether threads form a line of ancestors: each was forked from the next.
pub open spec fn is_line(threads: Seq<ThreadModel>, line: Seq<int>) -> bool {
    &&& in_range(threads, line)
    &&& forall|k: int|
        0 < k < line.len() ==> threads[line[k - 1]].parent == Some(threads[#[trigger] line[k]].id)
}

/// Whether a thread is its own ancestor, or has an ancestor that is.
pub open spec fn meets_cycle(threads: Seq<ThreadModel>, i: int) -> bool {
    exists|line: Seq<int>| #[trigger]
        is_line(threads, line) && line.len() > 0 && line[0] == i && !line.no_duplicates()
}

proof fn lemma_line_goes_on(threads: Seq<ThreadModel>, line: Seq<int>)
    requires
        is_line(threads, line),
        line.len() > 0,
        line.no_duplicates(),
        !is_grounded(threads, line.last()),
    ensures
        meets_cycle(threads, line[0]),
    decreases threads.len() - line.len(),
{
    let last = line.last();
    assert(from_top(threads, last, 0) == is_root(threads, last));
    assert(line[line.len() - 1] == last);
    let j = choose|j: int|
        0 <= j < threads.len() && (#[trigger] threads[j]).id == threads[last].parent->0;
    assert(threads[last].parent == Some(threads[j].id));
    if is_grounded(threads, j) {
        let steps = choose|steps: nat| from_top(threads, j, steps);
        assert(from_top(threads, last, steps + 1));
    }
    let longer = line.push(j);
    assert forall|k: int| 0 < k < longer.len() implies threads[longer[k - 1]].parent == Some(
        threads[#[trigger] longer[k]].id,
    ) by {
        if k < line.len() {
            assert(longer[k] == line[k]);
        }
    }
    assert forall|p: int| 0 <= p < longer.len() implies 0 <= #[trigger] longer[p]
        < threads.len() by {
        if p < line.len() {
            assert(longer[p] == line[p]);
        }
    }
    assert(longer[0] == line[0]);
    if line.contains(j) {
        let k = line.index_of(j);
        assert(longer[k] == longer[line.len() as int]);
    } else {
        assert(longer.no_duplicates());
        lemma_at_most_all(threads, longer);
        lemma_line_goes_on(threads, longer);
    }
}

proof fn lemma_at_most_all(threads: Seq<ThreadModel>, line: Seq<int>)
    requires
        in_range(threads, line),
        line.no_duplicates(),
    ensures
        line.len() <= threads.len(),
{
    let range = vstd::set_lib::set_int_range(0, threads.len() as int);
    vstd::set_lib::lemma_int_range(0, threads.len() as int);
    line.unique_seq_to_set();
    assert(line.to_set().subset_of(range));
    vstd::set_lib::lemma_len_subset(line.to_set(), range);
}

/// A thread that is neither its own ancestor nor forked from one that is comes from the top.
pub proof fn lemma_grounded(threads: Seq<ThreadModel>, i: int)
    requires
        0 <= i < threads.len(),
        !meets_cycle(threads, i),
    ensures
        is_grounded(threads, i),
{
    if !is_grounded(threads, i) {
        lemma_line_goes_on(threads, seq![i]);
    }
}

proof fn lemma_from_top_reached(threads: Seq<ThreadModel>, all: Seq<int>, i: int, steps: nat)
    requires
        all == walked(threads, roots(threads, threads.len()), Seq::empty()),
        0 <= i < threads.len(),
        from_top(threads, i, steps),
    ensures
        listed(threads, all, threads[i].id),
    decreases steps,
{
    lemma_roots_walked(threads);
    if !is_root(threads, i) {
        let j = choose|j: int|
            0 <= j < threads.len() && threads[i].parent == Some((#[trigger] threads[j]).id)
                && from_top(threads, j, (steps - 1) as nat);
        lemma_from_top_reached(threads, all, j, (steps - 1) as nat);
        let p = choose|p: int| 0 <= p < all.len() && threads[#[trigger] all[p]].id == threads[j].id;
        assert(threads[i].parent == Some(threads[all[p]].id));
        assert(!Seq::<int>::empty().contains(i));
    }
}

/// Threads that come from the top are listed by walking the branches, before all others.
proof fn lemma_grounded_walked(threads: Seq<ThreadModel>, p: int)
    requires
        0 <= p < display_order(threads).len(),
        is_grounded(threads, display_order(threads)[p]),
    ensures
        ({
            let all = walked(threads, roots(threads, threads.len()), Seq::empty());
            p < all.len() && all.is_prefix_of(display_order(threads))
        }),
{
    let order = display_order(threads);
    let all = walked(threads, roots(threads, threads.len()), Seq::empty());
    lemma_roots_walked(threads);
    lemma_with_rest(threads, all, threads.len());
    let steps = choose|steps: nat| from_top(threads, order[p], steps);
    lemma_from_top_reached(threads, all, order[p], steps);
    let q = choose|q: int|
        0 <= q < all.len() && threads[#[trigger] all[q]].id == threads[order[p]].id;
    assert(order[q] == all[q]);
}

/// Every thread of the list that comes from the top stands there, or after the thread that it was
/// forked from, whatever the other threads are.
pub proof fn lemma_parents_first(threads: Seq<ThreadModel>, p: int)
    requires
        0 <= p < display_order(threads).len(),
        is_grounded(threads, display_order(threads)[p]),
    ensures
        follows_parent(threads, display_order(threads), p),
{
    let order = display_order(threads);
    let all = walked(threads, roots(threads, threads.len()), Seq::empty());
    lemma_grounded_walked(threads, p);
    lemma_roots_walked(threads);
    assert(follows_parent(threads, all, p));
    assert(order[p] == all[p]);
    if !is_root(threads, all[p]) {
        let q = choose|q: int|
            0 <= q < p && Some(threads[#[trigger] all[q]].id) == threads[all[p]].parent;
        assert(order[q] == all[q]);
    }
}

// ---------------------------------------------------------------------------------------------
// Branches and siblings
// ---------------------------------------------------------------------------------------------
/// Whether a thread was forked from the one at a position of the list.
pub open spec fn forked_at(threads: Seq<ThreadModel>, out: Seq<int>, s: int, i: int) -> bool {
    0 <= s < out.len() && threads[i].parent == Some(threads[out[s]].id)
}

/// Whether the thread at position `q` belongs to the branch of the one at `p`: it is that thread,
/// or was forked from a thread of the branch.
pub open spec fn in_branch(threads: Seq<ThreadModel>, out: Seq<int>, p: int, q: int) -> bool
    decreases q - p,
{
    p == q || exists|s: int|
        p <= s < q && #[trigger] forked_at(threads, out, s, out[q]) && in_branch(
            threads,
            out,
            p,
            s,
        )
}

/// Whether two threads stand side by side: both at the top, or forked from the same thread.
pub open spec fn siblings(threads: Seq<ThreadModel>, i: int, j: int) -> bool {
    (is_root(threads, i) && is_root(threads, j)) || (threads[i].parent is Some
        && threads[i].parent == threads[j].parent)
}

/// Whether a thread was forked from one at a position from `p` on and before `end`.
spec fn forked_since(
    threads: Seq<ThreadModel>,
    out: Seq<int>,
    p: int,
    end: int,
    i: int,
) -> bool {
    exists|s: int| p <= s < end && #[trigger] forked_at(threads, out, s, i)
}

/// Between a thread and one that was forked from it stand only threads that were forked from one
/// of those.
spec fn together(threads: Seq<ThreadModel>, out: Seq<int>) -> bool {
    forall|p: int, q: int, r: int|
        #![trigger forked_at(threads, out, p, out[r]), out[q]]
        0 <= p < q < r < out.len() && forked_at(threads, out, p, out[r]) ==> forked_since(
            threads,
            out,
            p,
            q,
            out[q],
        )
}

/// The same of a thread in the list and one that is to come.
spec fn open_together(threads: Seq<ThreadModel>, todo: Seq<int>, out: Seq<int>) -> bool {
    forall|p: int, q: int, b: int|
        #![trigger forked_at(threads, out, p, todo[b]), out[q]]
        0 <= p < q < out.len() && 0 <= b < todo.len() && forked_at(threads, out, p, todo[b])
            ==> forked_since(threads, out, p, q, out[q])
}

/// Of two threads that are to come, the first was forked from one as far down the list.
spec fn innermost_first(threads: Seq<ThreadModel>, todo: Seq<int>, out: Seq<int>) -> bool {
    forall|p: int, a: int, b: int|
        #![trigger todo[a], forked_at(threads, out, p, todo[b])]
        0 <= a < b < todo.len() && forked_at(threads, out, p, todo[b]) ==> forked_since(
            threads,
            out,
            p,
            out.len() as int,
            todo[a],
        )
}

/// A thread that is listed next was not among the parents so far, and its children are forked from
/// it alone.
proof fn lemma_forked_at_taken(
    threads: Seq<ThreadModel>,
    todo: Seq<int>,
    out: Seq<int>,
    p: int,
    t: int,
)
    requires
        todo.len() > 0,
        in_range(threads, todo),
        lists_once(threads, out),
        parents_listed(threads, todo, out),
        !listed(threads, out, threads[todo.first()].id),
        0 <= t < children(threads, threads[todo.first()].id, threads.len()).len() + todo.len() - 1,
    ensures
        ({
            let i = todo.first();
            let kids = children(threads, threads[i].id, threads.len());
            let next = kids + todo.drop_first();
            forked_at(threads, out.push(i), p, next[t]) == (if t < kids.len() {
                p == out.len()
            } else {
                forked_at(threads, out, p, todo[t - kids.len() + 1])
            })
        }),
{
    let i = todo.first();
    let kids = children(threads, threads[i].id, threads.len());
    let next = kids + todo.drop_first();
    let now = out.push(i);
    lemma_children_in_range(threads, threads[i].id, threads.len());
    assert(todo[0] == i);
    if 0 <= p < out.len() {
        assert(now[p] == out[p]);
        assert(threads[out[p]].id != threads[i].id);
    }
    if t < kids.len() {
        assert(next[t] == kids[t]);
    } else {
        let c = todo[t - kids.len() + 1];
        assert(next[t] == c);
        if threads[c].parent == Some(threads[i].id) {
            assert(has_id(threads, threads[i].id));
            assert(!is_root(threads, c));
            assert(listed(threads, out, threads[c].parent->0));
        }
    }
}

proof fn lemma_walked_together(threads: Seq<ThreadModel>, todo: Seq<int>, out: Seq<int>)
    requires
        in_range(threads, todo),
        lists_once(threads, out),
        parents_listed(threads, todo, out),
        all_follow(threads, out),
        together(threads, out),
        open_together(threads, todo, out),
        innermost_first(threads, todo, out),
    ensures
        together(threads, walked(threads, todo, out)),
    decreases threads.len() - out.len(), todo.len(),
{
    if todo.len() > 0 && out.len() < threads.len() {
        let i = todo.first();
        let rest = todo.drop_first();
        assert(todo[0] == i);
        if listed(threads, out, threads[i].id) {
            lemma_passed(threads, todo, out);
            assert forall|p: int, q: int, b: int|
                #![trigger forked_at(threads, out, p, rest[b]), out[q]]
                0 <= p < q < out.len() && 0 <= b < rest.len() && forked_at(
                    threads,
                    out,
                    p,
                    rest[b],
                ) implies forked_since(threads, out, p, q, out[q]) by {
                assert(rest[b] == todo[b + 1]);
            }
            assert forall|p: int, a: int, b: int|
                #![trigger rest[a], forked_at(threads, out, p, rest[b])]
                0 <= a < b < rest.len() && forked_at(threads, out, p, rest[b]) implies forked_since(
                threads,
                out,
                p,
                out.len() as int,
                rest[a],
            ) by {
                assert(rest[a] == todo[a + 1]);
                assert(rest[b] == todo[b + 1]);
            }
            lemma_walked_together(threads, rest, out);
        } else {
            let kids = children(threads, threads[i].id, threads.len());
            let next = kids + rest;
            let now = out.push(i);
            let n = out.len() as int;
            lemma_taken(threads, todo, out);
            assert(now[n] == i);
            assert forall|p: int, q: int, r: int|
                #![trigger forked_at(threads, now, p, now[r]), now[q]]
                0 <= p < q < r < now.len() && forked_at(
                    threads,
                    now,
                    p,
                    now[r],
                ) implies forked_since(threads, now, p, q, now[q]) by {
                assert(now[p] == out[p] && now[q] == out[q]);
                if r < n {
                    assert(forked_at(threads, out, p, out[r]));
                } else {
                    assert(forked_at(threads, out, p, todo[0]));
                }
                lemma_forked_since_kept(threads, out, now, p, q, out[q]);
            }
            assert forall|p: int, q: int, b: int|
                #![trigger forked_at(threads, now, p, next[b]), now[q]]
                0 <= p < q < now.len() && 0 <= b < next.len() && forked_at(
                    threads,
                    now,
                    p,
                    next[b],
                ) implies forked_since(threads, now, p, q, now[q]) by {
                lemma_forked_at_taken(threads, todo, out, p, b);
                let t = b - kids.len() + 1;
                assert(forked_at(threads, out, p, todo[t]));
                if q < n {
                    assert(now[q] == out[q]);
                } else {
                    assert(forked_since(threads, out, p, n, todo[0]));
                }
                lemma_forked_since_kept(threads, out, now, p, q, now[q]);
            }
            assert forall|p: int, a: int, b: int|
                #![trigger next[a], forked_at(threads, now, p, next[b])]
                0 <= a < b < next.len() && forked_at(threads, now, p, next[b]) implies forked_since(
                threads,
                now,
                p,
                now.len() as int,
                next[a],
            ) by {
                lemma_forked_at_taken(threads, todo, out, p, b);
                if a < kids.len() {
                    lemma_forked_at_taken(threads, todo, out, n, a);
                    assert(forked_at(threads, now, n, next[a]));
                } else {
                    let u = a - kids.len() + 1;
                    assert(next[a] == todo[u]);
                    assert(forked_at(threads, out, p, todo[b - kids.len() + 1]));
                    assert(forked_since(threads, out, p, n, todo[u]));
                    lemma_forked_since_kept(threads, out, now, p, n, todo[u]);
                }
            }
            lemma_walked_together(threads, next, now);
        }
    }
}

proof fn lemma_forked_since_kept(
    threads: Seq<ThreadModel>,
    a: Seq<int>,
    b: Seq<int>,
    p: int,
    end: int,
    i: int,
)
    requires
        a.is_prefix_of(b),
        0 <= p,
        end <= a.len(),
        forked_since(threads, a, p, end, i),
    ensures
        forked_since(threads, b, p, end, i),
        forked_since(threads, b, p, b.len() as int, i),
{
    let s = choose|s: int| p <= s < end && #[trigger] forked_at(threads, a, s, i);
    assert(b[s] == a[s]);
    assert(forked_at(threads, b, s, i));
}

proof fn lemma_in_branch(threads: Seq<ThreadModel>, out: Seq<int>, p: int, q: int, r: int)
    requires
        together(threads, out),
        0 <= p <= q <= r < out.len(),
        in_branch(threads, out, p, r),
    ensures
        in_branch(threads, out, p, q),
    decreases r, q,
{
    if p < q < r {
        let s = choose|s: int|
            p <= s < r && #[trigger] forked_at(threads, out, s, out[r]) && in_branch(
                threads,
                out,
                p,
                s,
            );
        if q <= s {
            lemma_in_branch(threads, out, p, q, s);
        } else {
            assert(forked_since(threads, out, s, q, out[q]));
            let t = choose|t: int| s <= t < q && #[trigger] forked_at(threads, out, t, out[q]);
            lemma_in_branch(threads, out, p, t, r);
            assert(forked_at(threads, out, t, out[q]) && in_branch(threads, out, p, t));
        }
    }
}

/// A thread of the branch of one that comes from the top comes from there too.
proof fn lemma_branch_grounded(threads: Seq<ThreadModel>, out: Seq<int>, p: int, r: int)
    requires
        in_range(threads, out),
        0 <= p <= r < out.len(),
        is_grounded(threads, out[p]),
        in_branch(threads, out, p, r),
    ensures
        is_grounded(threads, out[r]),
    decreases r,
{
    if p < r {
        let s = choose|s: int|
            p <= s < r && #[trigger] forked_at(threads, out, s, out[r]) && in_branch(
                threads,
                out,
                p,
                s,
            );
        lemma_branch_grounded(threads, out, p, s);
        let steps = choose|steps: nat| from_top(threads, out[s], steps);
        assert(threads[out[r]].parent == Some(threads[out[s]].id));
        assert(from_top(threads, out[r], steps + 1));
    }
}

/// What is listed later does not change a branch.
proof fn lemma_branch_in_prefix(
    threads: Seq<ThreadModel>,
    a: Seq<int>,
    b: Seq<int>,
    p: int,
    q: int,
)
    requires
        a.is_prefix_of(b),
        0 <= p,
        q < a.len(),
    ensures
        in_branch(threads, a, p, q) == in_branch(threads, b, p, q),
    decreases q,
{
    if p < q {
        assert(a[q] == b[q]);
        if in_branch(threads, a, p, q) {
            let s = choose|s: int|
                p <= s < q && #[trigger] forked_at(threads, a, s, a[q]) && in_branch(
                    threads,
                    a,
                    p,
                    s,
                );
            lemma_branch_in_prefix(threads, a, b, p, s);
            assert(a[s] == b[s]);
            assert(forked_at(threads, b, s, b[q]));
        }
        if in_branch(threads, b, p, q) {
            let s = choose|s: int|
                p <= s < q && #[trigger] forked_at(threads, b, s, b[q]) && in_branch(
                    threads,
                    b,
                    p,
                    s,
                );
            lemma_branch_in_prefix(threads, a, b, p, s);
            assert(a[s] == b[s]);
            assert(forked_at(threads, a, s, a[q]));
        }
    }
}

/// The branch of a thread that comes from the top stands together: what comes between the thread
/// and one of its branch is of the branch too, whatever the other threads are.
pub proof fn lemma_branch_together(threads: Seq<ThreadModel>, p: int, q: int, r: int)
    requires
        0 <= p <= q <= r < display_order(threads).len(),
        is_grounded(threads, display_order(threads)[p]),
        in_branch(threads, display_order(threads), p, r),
    ensures
        in_branch(threads, display_order(threads), p, q),
{
    let order = display_order(threads);
    let tops = roots(threads, threads.len());
    let all = walked(threads, tops, Seq::empty());
    lemma_each_thread_once(threads);
    lemma_branch_grounded(threads, order, p, r);
    lemma_grounded_walked(threads, r);
    lemma_roots_in_range(threads, threads.len());
    lemma_walked_together(threads, tops, Seq::empty());
    lemma_branch_in_prefix(threads, all, order, p, r);
    lemma_in_branch(threads, all, p, q, r);
    lemma_branch_in_prefix(threads, all, order, p, q);
}

/// Whether indices rise and stay below `k`.
spec fn rises(s: Seq<int>, k: int) -> bool {
    &&& forall|a: int| 0 <= a < s.len() ==> #[trigger] s[a] < k
    &&& forall|a: int, b: int| 0 <= a < b < s.len() ==> #[trigger] s[a] < #[trigger] s[b]
}

proof fn lemma_roots_rise(threads: Seq<ThreadModel>, k: nat)
    ensures
        rises(roots(threads, k), k as int),
    decreases k,
{
    if k > 0 {
        lemma_roots_rise(threads, (k - 1) as nat);
        assert(rises(roots(threads, (k - 1) as nat).push(k - 1), k as int));
    }
}

proof fn lemma_children_rise(threads: Seq<ThreadModel>, id: i64, k: nat)
    ensures
        rises(children(threads, id, k), k as int),
    decreases k,
{
    if k > 0 {
        lemma_children_rise(threads, id, (k - 1) as nat);
        assert(rises(children(threads, id, (k - 1) as nat).push(k - 1), k as int));
    }
}

/// Whether siblings of a list stand in the order in which they are stored.
pub open spec fn siblings_sorted(threads: Seq<ThreadModel>, out: Seq<int>) -> bool {
    forall|p: int, q: int|
        0 <= p < q < out.len() && siblings(threads, #[trigger] out[p], #[trigger] out[q])
            ==> out[p] < out[q]
}

proof fn lemma_walked_siblings(threads: Seq<ThreadModel>, todo: Seq<int>, out: Seq<int>)
    requires
        in_range(threads, todo),
        lists_once(threads, out),
        parents_listed(threads, todo, out),
        all_follow(threads, out),
        siblings_sorted(threads, out + todo),
    ensures
        siblings_sorted(threads, walked(threads, todo, out)),
    decreases threads.len() - out.len(), todo.len(),
{
    let line = out + todo;
    if todo.len() == 0 || out.len() >= threads.len() {
        assert forall|p: int, q: int|
            0 <= p < q < out.len() && siblings(
                threads,
                #[trigger] out[p],
                #[trigger] out[q],
            ) implies out[p] < out[q] by {
            assert(line[p] == out[p] && line[q] == out[q]);
        }
    } else {
        let i = todo.first();
        let rest = todo.drop_first();
        assert(todo[0] == i);
        if listed(threads, out, threads[i].id) {
            lemma_passed(threads, todo, out);
            let next_line = out + rest;
            let from = |p: int|
                if p < out.len() {
                    p
                } else {
                    p + 1
                };
            assert forall|p: int, q: int|
                0 <= p < q < next_line.len() && siblings(
                    threads,
                    #[trigger] next_line[p],
                    #[trigger] next_line[q],
                ) implies next_line[p] < next_line[q] by {
                assert(next_line[p] == line[from(p)] && next_line[q] == line[from(q)]);
            }
            lemma_walked_siblings(threads, rest, out);
        } else {
            let kids = children(threads, threads[i].id, threads.len());
            let now = out.push(i);
            let n = now.len() as int;
            let next_line = now + (kids + rest);
            lemma_taken(threads, todo, out);
            lemma_children_in_range(threads, threads[i].id, threads.len());
            lemma_children_rise(threads, threads[i].id, threads.len());
            let is_kid = |p: int| n <= p < n + kids.len();
            let from = |p: int|
                if p < n {
                    p
                } else {
                    p - kids.len()
                };
            assert forall|p: int| 0 <= p < next_line.len() && !is_kid(p) implies (
            #[trigger] next_line[p]) == line[from(p)] && threads[next_line[p]].parent != Some(
                threads[i].id,
            ) by {
                lemma_not_child(threads, todo, out, from(p));
            }
            assert forall|p: int| is_kid(p) implies (#[trigger] next_line[p]) == kids[p - n]
                && threads[next_line[p]].parent == Some(threads[i].id) && !is_root(
                threads,
                next_line[p],
            ) by {
                assert(has_id(threads, threads[i].id));
            }
            assert forall|p: int, q: int|
                0 <= p < q < next_line.len() && siblings(
                    threads,
                    #[trigger] next_line[p],
                    #[trigger] next_line[q],
                ) implies next_line[p] < next_line[q] by {
                assert(is_kid(p) == is_kid(q));
                if is_kid(p) {
                    assert(kids[p - n] < kids[q - n]);
                } else {
                    assert(from(p) < from(q));
                }
            }
            lemma_walked_siblings(threads, kids + rest, now);
        }
    }
}

/// Nothing that is listed or to come was forked from a thread that is not listed.
proof fn lemma_not_child(threads: Seq<ThreadModel>, todo: Seq<int>, out: Seq<int>, p: int)
    requires
        todo.len() > 0,
        in_range(threads, todo),
        lists_once(threads, out),
        parents_listed(threads, todo, out),
        all_follow(threads, out),
        !listed(threads, out, threads[todo.first()].id),
        0 <= p < out.len() + todo.len(),
    ensures
        threads[(out + todo)[p]].parent != Some(threads[todo.first()].id),
{
    let i = todo.first();
    let c = (out + todo)[p];
    assert(todo[0] == i);
    if threads[c].parent == Some(threads[i].id) {
        assert(has_id(threads, threads[i].id));
        assert(!is_root(threads, c));
        if p < out.len() {
            assert(follows_parent(threads, out, p));
            let q = choose|q: int|
                0 <= q < p && Some(threads[#[trigger] out[q]].id) == threads[out[p]].parent;
            assert(threads[out[q]].id == threads[i].id);
        } else {
            assert(c == todo[p - out.len()]);
            assert(listed(threads, out, threads[c].parent->0));
        }
    }
}

/// What is added behind a list is new to it and in the order in which it is stored.
proof fn lemma_rest_sorted(threads: Seq<ThreadModel>, out: Seq<int>, k: nat)
    requires
        k <= threads.len(),
    ensures
        ({
            let all = with_rest(threads, out, k);
            &&& all.len() >= out.len()
            &&& forall|p: int|
                out.len() <= p < all.len() ==> 0 <= #[trigger] all[p] < k && !listed(
                    threads,
                    out,
                    threads[all[p]].id,
                )
            &&& forall|p: int, q: int|
                out.len() <= p < q < all.len() ==> #[trigger] all[p] < #[trigger] all[q]
            &&& out.is_prefix_of(all)
        }),
    decreases k,
{
    if k > 0 {
        lemma_rest_sorted(threads, out, (k - 1) as nat);
        let before = with_rest(threads, out, (k - 1) as nat);
        let all = with_rest(threads, out, k);
        if !listed(threads, before, threads[k - 1].id) && listed(
            threads,
            out,
            threads[k - 1].id,
        ) {
            lemma_prefix_listed(threads, out, before, threads[k - 1].id);
        }
        assert forall|p: int| out.len() <= p < all.len() implies 0 <= #[trigger] all[p] < k
            && !listed(threads, out, threads[all[p]].id) by {
            if p < before.len() {
                assert(all[p] == before[p]);
            }
        }
    }
}

/// Threads at the top, and threads that were forked from the same thread, are listed in the order
/// in which they are stored.
pub proof fn lemma_siblings_in_order(threads: Seq<ThreadModel>)
    ensures
        siblings_sorted(threads, display_order(threads)),
{
    let tops = roots(threads, threads.len());
    let first = walked(threads, tops, Seq::empty());
    let all = display_order(threads);
    lemma_roots_in_range(threads, threads.len());
    lemma_roots_rise(threads, threads.len());
    assert(Seq::<int>::empty() + tops =~= tops);
    lemma_walked_siblings(threads, tops, Seq::empty());
    lemma_roots_walked(threads);
    lemma_rest_sorted(threads, first, threads.len());
    assert forall|p: int, q: int|
        0 <= p < q < all.len() && siblings(
            threads,
            #[trigger] all[p],
            #[trigger] all[q],
        ) implies all[p] < all[q] by {
        if p < first.len() {
            assert(all[p] == first[p]);
            if q < first.len() {
                assert(all[q] == first[q]);
            } else if !is_root(threads, all[q]) {
                assert(follows_parent(threads, first, p));
                let s = choose|s: int|
                    0 <= s < p && Some(threads[#[trigger] first[s]].id)
                        == threads[first[p]].parent;
                assert(threads[all[q]].parent == Some(threads[first[s]].id));
                assert(!Seq::<int>::empty().contains(all[q]));
            }
        }
    }
}

} // verus!
