//! The turns of a thread in time, and the thread without the turns from one on.
use crate::json::{put, Json};
use crate::lines::lists;
use crate::order::{stable_sort, Sortable};
use crate::text::{owned, same};
use vstd::prelude::*;
#[allow(unused_imports)]
use crate::json::{
    field, field_items, field_str, lemma_trees, tree, tree_i64, tree_str, trees, JsonTree,
};
#[allow(unused_imports)]
use crate::order::{inserted, stable_sorted};

verus! {

broadcast use vstd::map::group_map_axioms;

// ---------------------------------------------------------------------------------------------
// Times
// ---------------------------------------------------------------------------------------------
/// Texts with the times that they were read as. A text that is not among them is no time.
pub struct IsoTimes {
    pub times: Vec<(String, i64)>,
}

pub open spec fn time_in(times: Seq<(String, i64)>, text: Seq<char>) -> Option<i64>
    decreases times.len(),
{
    if times.len() == 0 {
        None
    } else if times[0].0@ == text {
        Some(times[0].1)
    } else {
        time_in(times.drop_first(), text)
    }
}

impl IsoTimes {
    pub open spec fn time_of(self, text: Seq<char>) -> Option<i64> {
        time_in(self.times@, text)
    }

    fn lookup(&self, text: &str) -> (r: Option<i64>)
        ensures
            r == self.time_of(text@),
    {
        let times = &self.times;
        let mut i: usize = 0;
        assert(times@.skip(0) =~= times@);
        while i < times.len()
            invariant
                i <= times@.len(),
                *times == self.times,
                self.time_of(text@) == time_in(times@.skip(i as int), text@),
            decreases times.len() - i,
        {
            assert(times@.skip(i as int).drop_first() =~= times@.skip(i + 1));
            if same(times[i].0.as_str(), text) {
                return Some(times[i].1);
            }
            i += 1;
        }
        None
    }
}

/// The time in an entry of a turn: seconds, or a text that was read as a time.
pub open spec fn time_at(turn: JsonTree, key: Seq<char>, iso: IsoTimes) -> Option<i64> {
    match field(turn, key) {
        None => None,
        Some(raw) => match tree_i64(raw) {
            Some(ts) => Some(ts),
            None => match tree_str(raw) {
                Some(s) => iso.time_of(s),
                None => None,
            },
        },
    }
}

/// The time of a turn: when it was completed, or else when it was created.
pub open spec fn turn_time(turn: JsonTree, iso: IsoTimes) -> Option<i64> {
    match time_at(turn, "completedAt"@, iso) {
        Some(ts) => Some(ts),
        None => time_at(turn, "createdAt"@, iso),
    }
}

fn time_under(turn: &Json, key: &str, iso: &IsoTimes) -> (r: Option<i64>)
    ensures
        r == time_at(tree(*turn), key@, *iso),
{
    match turn.get(key) {
        None => None,
        Some(raw) => match raw.as_i64() {
            Some(ts) => Some(ts),
            None => match raw.as_str() {
                Some(s) => iso.lookup(s),
                None => None,
            },
        },
    }
}

pub fn parse_turn_timestamp_opt(turn: &Json, iso: &IsoTimes) -> (r: Option<i64>)
    ensures
        r == turn_time(tree(*turn), *iso),
{
    match time_under(turn, "completedAt", iso) {
        Some(ts) => Some(ts),
        None => time_under(turn, "createdAt", iso),
    }
}

/// The texts in an entry of the turns that have to be read as times.
pub open spec fn time_texts(turns: Seq<JsonTree>) -> Seq<Seq<char>>
    decreases turns.len(),
{
    if turns.len() == 0 {
        Seq::empty()
    } else {
        let head = time_texts(turns.drop_last());
        let a = match field_str(turns.last(), "completedAt"@) {
            Some(s) => head.push(s),
            None => head,
        };
        match field_str(turns.last(), "createdAt"@) {
            Some(s) => a.push(s),
            None => a,
        }
    }
}

/// The texts of a thread that have to be read as times.
pub fn time_texts_of(thread: &Json) -> (out: Vec<String>)
    ensures
        out.deep_view() == (match field_items(tree(*thread), "turns"@) {
            Some(turns) => time_texts(turns),
            None => Seq::empty(),
        }),
{
    let mut out: Vec<String> = Vec::new();
    assert(out.deep_view() =~= Seq::empty());
    let turns = match thread.array_at("turns") {
        Some(turns) => turns,
        None => return out,
    };
    let ghost all = trees(turns@);
    proof {
        lemma_trees(turns@);
    }
    let mut i: usize = 0;
    assert(all.take(0) =~= Seq::empty());
    while i < turns.len()
        invariant
            i <= turns@.len(),
            all == trees(turns@),
            all.len() == turns@.len(),
            forall|k: int| 0 <= k < turns@.len() ==> #[trigger] all[k] == tree(turns@[k]),
            out.deep_view() == time_texts(all.take(i as int)),
        decreases turns.len() - i,
    {
        assert(all.take(i + 1).drop_last() =~= all.take(i as int));
        assert(all.take(i + 1).last() == all[i as int]);
        if let Some(s) = turns[i].str_at("completedAt") {
            let ghost before = out.deep_view();
            out.push(owned(s));
            assert(out.deep_view() =~= before.push(s@));
        }
        if let Some(s) = turns[i].str_at("createdAt") {
            let ghost before = out.deep_view();
            out.push(owned(s));
            assert(out.deep_view() =~= before.push(s@));
        }
        i += 1;
    }
    assert(all.take(i as int) =~= all);
    out
}

// ---------------------------------------------------------------------------------------------
// Turns in time
// ---------------------------------------------------------------------------------------------
/// A turn, by its position in the thread, with its time.
pub struct TimedTurn {
    pub index: usize,
    pub time: i64,
}

impl Sortable for TimedTurn {
    open spec fn before(a: TimedTurn, b: TimedTurn) -> bool {
        a.time <= b.time
    }

    proof fn total(a: TimedTurn, b: TimedTurn) {
    }

    proof fn transitive(a: TimedTurn, b: TimedTurn, c: TimedTurn) {
    }

    fn is_before(a: &TimedTurn, b: &TimedTurn) -> (r: bool) {
        a.time <= b.time
    }
}

/// The turns with their times; a turn without a time has its position for one.
pub open spec fn timed(turns: Seq<JsonTree>, iso: IsoTimes) -> Seq<TimedTurn> {
    Seq::new(
        turns.len(),
        |i: int|
            TimedTurn {
                index: i as usize,
                time: match turn_time(turns[i], iso) {
                    Some(ts) => ts,
                    None => i as i64,
                },
            },
    )
}

/// The turns in the order of time.
pub open spec fn in_time(turns: Seq<JsonTree>, iso: IsoTimes) -> Seq<TimedTurn> {
    stable_sorted(timed(turns, iso))
}

/// The position of the first turn with an identifier, or the number of turns.
pub open spec fn turn_index(turns: Seq<JsonTree>, id: Seq<char>) -> nat
    decreases turns.len(),
{
    if turns.len() == 0 || field_str(turns[0], "id"@) == Some(id) {
        0
    } else {
        1 + turn_index(turns.drop_first(), id)
    }
}

/// Where the turn at a position stands in time, or the number of turns.
pub open spec fn place_in_time(order: Seq<TimedTurn>, index: int) -> nat
    decreases order.len(),
{
    if order.len() == 0 || order[0].index == index {
        0
    } else {
        1 + place_in_time(order.drop_first(), index)
    }
}

/// The identifiers of the turns in `order`.
pub open spec fn ids_in(order: Seq<TimedTurn>, turns: Seq<JsonTree>) -> Seq<Seq<char>>
    decreases order.len(),
{
    if order.len() == 0 {
        Seq::empty()
    } else {
        let head = ids_in(order.drop_last(), turns);
        match field_str(turns[order.last().index as int], "id"@) {
            Some(id) => head.push(id),
            None => head,
        }
    }
}

/// The turns whose identifier is among `ids`, in their order.
pub open spec fn turns_with_ids(turns: Seq<JsonTree>, ids: Seq<Seq<char>>) -> Seq<JsonTree>
    decreases turns.len(),
{
    if turns.len() == 0 {
        Seq::empty()
    } else {
        let head = turns_with_ids(turns.drop_last(), ids);
        if field_str(turns.last(), "id"@) matches Some(id) && ids.contains(id) {
            head.push(turns.last())
        } else {
            head
        }
    }
}

/// Whether a turn comes before another in time; of turns at the same time, the one that stands
/// before the other in the thread does.
pub open spec fn is_earlier(turns: Seq<JsonTree>, iso: IsoTimes, i: int, j: int) -> bool {
    let all = timed(turns, iso);
    all[i].time < all[j].time || (all[i].time == all[j].time && i < j)
}

/// Whether a turn stays when the thread is cut at the turn at `index`: it has the identifier of a
/// turn that comes before that one.
pub open spec fn stays(turns: Seq<JsonTree>, iso: IsoTimes, index: int, turn: JsonTree) -> bool {
    field_str(turn, "id"@) is Some && exists|j: int|
        0 <= j < turns.len() && is_earlier(turns, iso, j, index) && field_str(
            #[trigger] turns[j],
            "id"@,
        ) == field_str(turn, "id"@)
}

/// Whether no two turns share an identifier.
pub open spec fn distinct_ids(turns: Seq<JsonTree>) -> bool {
    forall|i: int, j: int|
        0 <= i < j < turns.len() && field_str(#[trigger] turns[i], "id"@) is Some ==> field_str(
            turns[i],
            "id"@,
        ) != field_str(#[trigger] turns[j], "id"@)
}

/// Where a thread is cut.
#[verifier::ext_equal]
pub ghost struct CutModel {
    pub thread: JsonTree,
    pub rollback_count: int,
    pub target_index: int,
    pub place: int,
}

/// The thread without a turn and the turns that came after it in time.
pub open spec fn trimmed_thread(thread: JsonTree, target: Seq<char>, iso: IsoTimes) -> Result<
    CutModel,
    Seq<char>,
> {
    match field_items(thread, "turns"@) {
        None => Err("thread has no turns payload."@),
        Some(turns) => {
            let index = turn_index(turns, target) as int;
            if index >= turns.len() {
                Err("selected turn was not found in the remote thread."@)
            } else {
                let order = in_time(turns, iso);
                let place = place_in_time(order, index) as int;
                let kept = turns_with_ids(turns, ids_in(order.take(place), turns));
                Ok(
                    CutModel {
                        thread: JsonTree::Obj(
                            thread->Obj_0.insert("turns"@, JsonTree::Arr(kept)),
                        ),
                        rollback_count: turns.len() - place,
                        target_index: index,
                        place,
                    },
                )
            }
        },
    }
}

// ---------------------------------------------------------------------------------------------
// Properties
// ---------------------------------------------------------------------------------------------
proof fn lemma_turn_index(turns: Seq<JsonTree>, id: Seq<char>)
    ensures
        turn_index(turns, id) <= turns.len(),
        turn_index(turns, id) < turns.len() ==> field_str(
            turns[turn_index(turns, id) as int],
            "id"@,
        ) == Some(id),
    decreases turns.len(),
{
    if turns.len() > 0 && field_str(turns[0], "id"@) != Some(id) {
        lemma_turn_index(turns.drop_first(), id);
    }
}

proof fn lemma_place_in_time(order: Seq<TimedTurn>, index: int)
    ensures
        place_in_time(order, index) <= order.len(),
        place_in_time(order, index) < order.len() ==> order[place_in_time(
            order,
            index,
        ) as int].index == index,
        forall|j: int| 0 <= j < place_in_time(order, index) ==> (#[trigger] order[j]).index != index,
        (exists|j: int| 0 <= j < order.len() && (#[trigger] order[j]).index == index)
            ==> place_in_time(order, index) < order.len(),
    decreases order.len(),
{
    if order.len() > 0 && order[0].index != index {
        let rest = order.drop_first();
        lemma_place_in_time(rest, index);
        assert forall|j: int| 0 <= j < place_in_time(order, index) implies (
        #[trigger] order[j]).index != index by {
            if j > 0 {
                assert(rest[j - 1] == order[j]);
            }
        }
        if exists|j: int| 0 <= j < order.len() && (#[trigger] order[j]).index == index {
            let j = choose|j: int| 0 <= j < order.len() && (#[trigger] order[j]).index == index;
            assert(rest[j - 1].index == index);
        }
    }
}

spec fn names(order: Seq<TimedTurn>, i: int) -> bool {
    exists|j: int| 0 <= j < order.len() && (#[trigger] order[j]).index == i
}

/// The positions that `order` names are those below `n`, each once.
spec fn names_all(order: Seq<TimedTurn>, n: int) -> bool {
    &&& order.len() == n
    &&& forall|j: int| 0 <= j < order.len() ==> 0 <= (#[trigger] order[j]).index < n
    &&& forall|j: int, k: int|
        0 <= j < k < order.len() ==> (#[trigger] order[j]).index != (#[trigger] order[k]).index
    &&& forall|i: int| 0 <= i < n ==> #[trigger] names(order, i)
}

proof fn lemma_inserted_names_all(s: Seq<TimedTurn>, x: TimedTurn)
    requires
        names_all(s, x.index as int),
    ensures
        names_all(inserted(s, x), x.index as int + 1),
    decreases s.len(),
{
    let r = inserted(s, x);
    lemma_inserted_spread(s, x);
    let at = choose|at: int| put_at(s, x, at);
    let from = |j: int|
        if j < at {
            j
        } else {
            j - 1
        };
    assert forall|j: int| 0 <= j < r.len() implies (#[trigger] r[j]) == (if j == at {
        x
    } else {
        s[from(j)]
    }) by {}
    assert forall|j: int, k: int| 0 <= j < k < r.len() implies (#[trigger] r[j]).index != (
    #[trigger] r[k]).index by {
        if j == at {
            assert(s[from(k)].index < x.index);
        } else if k == at {
            assert(s[from(j)].index < x.index);
        } else {
            assert(from(j) < from(k));
        }
    }
    assert forall|i: int| 0 <= i < x.index + 1 implies #[trigger] names(r, i) by {
        if i == x.index {
            assert(r[at].index == i);
        } else {
            assert(names(s, i));
            let j = choose|j: int| 0 <= j < s.len() && (#[trigger] s[j]).index == i;
            let k = if j < at {
                j
            } else {
                j + 1
            };
            assert(from(k) == j);
            assert(r[k].index == i);
        }
    }
}

/// Whether putting an element in puts it at a position: behind one that may stand before it, and
/// before those that may not.
spec fn put_at(s: Seq<TimedTurn>, x: TimedTurn, at: int) -> bool {
    &&& 0 <= at <= s.len()
    &&& inserted(s, x) == s.take(at).push(x) + s.skip(at)
    &&& at > 0 ==> TimedTurn::before(s[at - 1], x)
    &&& forall|j: int| at <= j < s.len() ==> !TimedTurn::before(#[trigger] s[j], x)
}

proof fn lemma_inserted_spread(s: Seq<TimedTurn>, x: TimedTurn)
    ensures
        exists|at: int| put_at(s, x, at),
    decreases s.len(),
{
    if s.len() == 0 || TimedTurn::before(s.last(), x) {
        let at = s.len() as int;
        assert(s.take(at).push(x) + s.skip(at) =~= s.push(x));
        assert(put_at(s, x, at));
    } else {
        let head = s.drop_last();
        lemma_inserted_spread(head, x);
        let at = choose|at: int| put_at(head, x, at);
        assert(s.take(at).push(x) + s.skip(at) =~= (head.take(at).push(x) + head.skip(at)).push(
            s.last(),
        ));
        assert forall|j: int| at <= j < s.len() implies !TimedTurn::before(#[trigger] s[j], x) by {
            if j < head.len() {
                assert(head[j] == s[j]);
            }
        }
        assert(put_at(s, x, at));
    }
}

/// Turns of `all` by time, and by position where their times are the same.
spec fn by_time(order: Seq<TimedTurn>, all: Seq<TimedTurn>) -> bool {
    &&& forall|j: int|
        0 <= j < order.len() ==> (#[trigger] order[j]).index < all.len()
            && all[order[j].index as int] == order[j]
    &&& forall|j: int, k: int|
        0 <= j < k < order.len() ==> (#[trigger] order[j]).time < (#[trigger] order[k]).time || (
        order[j].time == order[k].time && order[j].index < order[k].index)
}

proof fn lemma_inserted_by_time(s: Seq<TimedTurn>, x: TimedTurn, all: Seq<TimedTurn>)
    requires
        by_time(s, all),
        forall|j: int| 0 <= j < s.len() ==> (#[trigger] s[j]).index < x.index,
        x.index < all.len(),
        all[x.index as int] == x,
    ensures
        by_time(inserted(s, x), all),
{
    let r = inserted(s, x);
    lemma_inserted_spread(s, x);
    let at = choose|at: int| put_at(s, x, at);
    let from = |j: int|
        if j < at {
            j
        } else {
            j - 1
        };
    assert forall|j: int| 0 <= j < r.len() implies (#[trigger] r[j]) == (if j == at {
        x
    } else {
        s[from(j)]
    }) by {}
    assert forall|j: int, k: int| 0 <= j < k < r.len() implies (#[trigger] r[j]).time < (
    #[trigger] r[k]).time || (r[j].time == r[k].time && r[j].index < r[k].index) by {
        if k == at {
            assert(s[j].time <= s[at - 1].time);
        } else if j == at {
            assert(!TimedTurn::before(s[from(k)], x));
        } else {
            assert(from(j) < from(k));
        }
    }
}

proof fn lemma_in_time_by_time(turns: Seq<JsonTree>, iso: IsoTimes, k: int)
    requires
        0 <= k <= turns.len() <= usize::MAX,
    ensures
        by_time(stable_sorted(timed(turns, iso).take(k)), timed(turns, iso)),
    decreases k,
{
    let all = timed(turns, iso);
    if k == 0 {
        assert(all.take(0) =~= Seq::empty());
    } else {
        lemma_in_time_by_time(turns, iso, k - 1);
        lemma_in_time_names_all(turns, iso, k - 1);
        assert(all.take(k).drop_last() =~= all.take(k - 1));
        assert(all.take(k).last() == all[k - 1]);
        lemma_inserted_by_time(stable_sorted(all.take(k - 1)), all[k - 1], all);
    }
}

proof fn lemma_in_time_names_all(turns: Seq<JsonTree>, iso: IsoTimes, k: int)
    requires
        0 <= k <= turns.len() <= usize::MAX,
    ensures
        names_all(stable_sorted(timed(turns, iso).take(k)), k),
    decreases k,
{
    let all = timed(turns, iso);
    if k == 0 {
        assert(all.take(0) =~= Seq::empty());
    } else {
        lemma_in_time_names_all(turns, iso, k - 1);
        assert(all.take(k).drop_last() =~= all.take(k - 1));
        assert(all.take(k).last() == all[k - 1]);
        lemma_inserted_names_all(stable_sorted(all.take(k - 1)), all[k - 1]);
    }
}

proof fn lemma_ids_in(order: Seq<TimedTurn>, turns: Seq<JsonTree>)
    requires
        forall|j: int| 0 <= j < order.len() ==> 0 <= (#[trigger] order[j]).index < turns.len(),
    ensures
        forall|id: Seq<char>| #[trigger]
            ids_in(order, turns).contains(id) <==> exists|j: int|
                0 <= j < order.len() && field_str(
                    turns[(#[trigger] order[j]).index as int],
                    "id"@,
                ) == Some(id),
    decreases order.len(),
{
    if order.len() > 0 {
        let rest = order.drop_last();
        assert forall|j: int| 0 <= j < rest.len() implies 0 <= (#[trigger] rest[j]).index
            < turns.len() by {
            assert(rest[j] == order[j]);
        }
        lemma_ids_in(rest, turns);
        let head = ids_in(rest, turns);
        let last = field_str(turns[order.last().index as int], "id"@);
        assert forall|id: Seq<char>| #[trigger] ids_in(order, turns).contains(id) <==> exists|j: int|
            0 <= j < order.len() && field_str(turns[(#[trigger] order[j]).index as int], "id"@)
                == Some(id) by {
            let all = ids_in(order, turns);
            if all.contains(id) {
                let k = choose|k: int| 0 <= k < all.len() && all[k] == id;
                if k < head.len() {
                    assert(head[k] == id);
                    assert(head.contains(id));
                    let j = choose|j: int|
                        0 <= j < rest.len() && field_str(
                            turns[(#[trigger] rest[j]).index as int],
                            "id"@,
                        ) == Some(id);
                    assert(order[j] == rest[j]);
                } else {
                    assert(order[order.len() - 1].index == order.last().index);
                }
            }
            if exists|j: int|
                0 <= j < order.len() && field_str(turns[(#[trigger] order[j]).index as int], "id"@)
                    == Some(id) {
                let j = choose|j: int|
                    0 <= j < order.len() && field_str(
                        turns[(#[trigger] order[j]).index as int],
                        "id"@,
                    ) == Some(id);
                if j < rest.len() {
                    assert(rest[j] == order[j]);
                    assert(head.contains(id));
                    let k = choose|k: int| 0 <= k < head.len() && head[k] == id;
                    assert(all[k] == id);
                } else {
                    assert(last == Some(id));
                    assert(all[head.len() as int] == id);
                }
            }
        }
    } else {
        assert forall|id: Seq<char>| !(#[trigger] ids_in(order, turns).contains(id)) by {}
    }
}

proof fn lemma_turns_with_ids(
    turns: Seq<JsonTree>,
    ids: Seq<Seq<char>>,
    wanted: spec_fn(JsonTree) -> bool,
)
    requires
        forall|t: JsonTree| #[trigger]
            wanted(t) == (field_str(t, "id"@) matches Some(id) && ids.contains(id)),
    ensures
        turns_with_ids(turns, ids) == turns.filter(wanted),
    decreases turns.len(),
{
    reveal(Seq::filter);
    if turns.len() > 0 {
        lemma_turns_with_ids(turns.drop_last(), ids, wanted);
        assert(wanted(turns.last()) == (field_str(turns.last(), "id"@) matches Some(id)
            && ids.contains(id)));
    }
}

/// The turns before the target in the order of time are those that come before it in time.
proof fn lemma_before_target(turns: Seq<JsonTree>, iso: IsoTimes, index: int, i: int)
    requires
        turns.len() <= usize::MAX,
        0 <= index < turns.len(),
        0 <= i < turns.len(),
    ensures
        ({
            let order = in_time(turns, iso);
            let place = place_in_time(order, index) as int;
            place < order.len() && (names(order.take(place), i) <==> is_earlier(
                turns,
                iso,
                i,
                index,
            ))
        }),
{
    let order = in_time(turns, iso);
    let all = timed(turns, iso);
    lemma_in_time_names_all(turns, iso, turns.len() as int);
    lemma_in_time_by_time(turns, iso, turns.len() as int);
    assert(all.take(turns.len() as int) =~= all);
    assert(names(order, index) && names(order, i));
    lemma_place_in_time(order, index);
    let place = place_in_time(order, index) as int;
    let before = order.take(place);
    let j = choose|j: int| 0 <= j < order.len() && (#[trigger] order[j]).index == i;
    assert(all[order[j].index as int] == order[j]);
    assert(all[order[place].index as int] == order[place]);
    if j < place {
        assert(before[j].index == i);
    } else if names(before, i) {
        let k = choose|k: int| 0 <= k < before.len() && (#[trigger] before[k]).index == i;
        assert(order[k].index == i);
    }
}

/// The positions of the turns that do not come before another in time: that turn itself, and those
/// after it.
pub open spec fn from_then_on(turns: Seq<JsonTree>, iso: IsoTimes, index: int) -> Set<int> {
    vstd::set_lib::set_int_range(0, turns.len() as int).filter(
        |i: int| !is_earlier(turns, iso, i, index),
    )
}

/// As many turns stand before the target in the order of time as come before it in time.
proof fn lemma_place_counts(turns: Seq<JsonTree>, iso: IsoTimes, index: int)
    requires
        turns.len() <= usize::MAX,
        0 <= index < turns.len(),
    ensures
        ({
            let place = place_in_time(in_time(turns, iso), index) as int;
            &&& 0 <= place < turns.len()
            &&& turns.len() - place == from_then_on(turns, iso, index).len()
        }),
{
    let order = in_time(turns, iso);
    let all = timed(turns, iso);
    let place = place_in_time(order, index) as int;
    lemma_in_time_names_all(turns, iso, turns.len() as int);
    assert(all.take(turns.len() as int) =~= all);
    lemma_before_target(turns, iso, index, index);
    let behind = Seq::new((turns.len() - place) as nat, |j: int| order[place + j].index as int);
    let later = from_then_on(turns, iso, index);
    vstd::set_lib::lemma_int_range(0, turns.len() as int);
    assert(behind.no_duplicates());
    assert(behind.to_set() =~= later) by {
        assert forall|i: int| behind.to_set().contains(i) <==> later.contains(i) by {
            if 0 <= i < turns.len() {
                lemma_before_target(turns, iso, index, i);
                assert(names(order, i));
                let j = choose|j: int| 0 <= j < order.len() && (#[trigger] order[j]).index == i;
                if j < place {
                    assert(order.take(place)[j].index == i);
                } else {
                    assert(behind[j - place] == i);
                    assert(behind.contains(i));
                }
                if behind.contains(i) {
                    let k = choose|k: int| 0 <= k < behind.len() && behind[k] == i;
                    assert(order[place + k].index == i);
                    if names(order.take(place), i) {
                        let m = choose|m: int|
                            0 <= m < order.take(place).len() && (
                            #[trigger] order.take(place)[m]).index == i;
                        assert(order[m].index == i);
                    }
                }
            } else if behind.contains(i) {
                let k = choose|k: int| 0 <= k < behind.len() && behind[k] == i;
                assert(0 <= order[place + k].index < turns.len());
            }
        }
    }
    behind.unique_seq_to_set();
}

/// A turn has the time at which it was completed, where that is a number of seconds or a text that
/// was read as a time; else the time at which it was created. Turns stand in time by these times,
/// and a turn that has none counts its position.
pub proof fn lemma_turn_times(turns: Seq<JsonTree>, iso: IsoTimes, i: int, j: int, ts: i64)
    requires
        0 <= i < turns.len() <= i64::MAX,
        0 <= j < turns.len(),
    ensures
        field(turns[i], "completedAt"@) matches Some(v) && (tree_i64(v) == Some(ts) || (tree_i64(
            v,
        ) is None && (tree_str(v) matches Some(text) && iso.time_of(text) == Some(ts))))
            ==> turn_time(turns[i], iso) == Some(ts),
        field(turns[i], "completedAt"@) is None && (field(turns[i], "createdAt"@) matches Some(v)
            && (tree_i64(v) == Some(ts) || (tree_i64(v) is None && (tree_str(v) matches Some(text)
            && iso.time_of(text) == Some(ts))))) ==> turn_time(turns[i], iso) == Some(ts),
        field(turns[i], "completedAt"@) is None && field(turns[i], "createdAt"@) is None
            ==> turn_time(turns[i], iso) is None,
        ({
            let a = match turn_time(turns[i], iso) {
                Some(t) => t as int,
                None => i,
            };
            let b = match turn_time(turns[j], iso) {
                Some(t) => t as int,
                None => j,
            };
            is_earlier(turns, iso, i, j) <==> a < b || (a == b && i < j)
        }),
{
}

/// The target of a cut is the first turn with its identifier; a thread without one is not cut.
pub proof fn lemma_cut_target(
    thread: JsonTree,
    target: Seq<char>,
    iso: IsoTimes,
    turns: Seq<JsonTree>,
    index: int,
)
    requires
        field_items(thread, "turns"@) == Some(turns),
    ensures
        0 <= index < turns.len() && field_str(turns[index], "id"@) == Some(target) && (forall|j: int|
            0 <= j < index ==> field_str(#[trigger] turns[j], "id"@) != Some(target))
            ==> turn_index(turns, target) == index,
        (forall|j: int|
            0 <= j < turns.len() ==> field_str(#[trigger] turns[j], "id"@) != Some(target))
            ==> trimmed_thread(thread, target, iso) == Err::<CutModel, Seq<char>>(
            "selected turn was not found in the remote thread."@,
        ),
    decreases turns.len(),
{
    lemma_first_turn(turns, target, index);
    lemma_turn_index(turns, target);
}

proof fn lemma_first_turn(turns: Seq<JsonTree>, target: Seq<char>, index: int)
    ensures
        0 <= index < turns.len() && field_str(turns[index], "id"@) == Some(target) && (forall|j: int|
            0 <= j < index ==> field_str(#[trigger] turns[j], "id"@) != Some(target))
            ==> turn_index(turns, target) == index,
    decreases turns.len(),
{
    if 0 < index < turns.len() {
        let rest = turns.drop_first();
        lemma_first_turn(rest, target, index - 1);
        if forall|j: int|
            0 <= j < index ==> field_str(#[trigger] turns[j], "id"@) != Some(target) {
            assert(field_str(turns[0], "id"@) != Some(target));
            assert forall|j: int| 0 <= j < index - 1 implies field_str(#[trigger] rest[j], "id"@)
                != Some(target) by {
                assert(rest[j] == turns[j + 1]);
            }
        }
    }
}

/// No cut rolls back less than nothing.
pub proof fn lemma_cut_count(thread: JsonTree, target: Seq<char>, iso: IsoTimes)
    ensures
        trimmed_thread(thread, target, iso) matches Ok(cut) ==> cut.rollback_count >= 0,
{
    if let Some(turns) = field_items(thread, "turns"@) {
        let order = in_time(turns, iso);
        crate::order::lemma_stable_sorted(timed(turns, iso));
        lemma_place_in_time(order, turn_index(turns, target) as int);
    }
}

/// A cut takes away at least the target turn and at most all turns: the turns before it in time
/// and the turns that are rolled back make up the thread. Rolled back are the target and all turns
/// that do not come before it in time. What is kept are the turns with the
/// identifier of a turn that comes before the target in time, in their order. Where no two turns
/// share an identifier, these are exactly the turns with an identifier that come before it, and the
/// target is not among them.
pub proof fn lemma_cut(thread: JsonTree, target: Seq<char>, iso: IsoTimes, turns: Seq<JsonTree>)
    requires
        field_items(thread, "turns"@) == Some(turns),
        turns.len() <= usize::MAX,
        turn_index(turns, target) < turns.len(),
    ensures
        trimmed_thread(thread, target, iso) matches Ok(cut) && {
            let index = turn_index(turns, target) as int;
            let kept = field_items(cut.thread, "turns"@);
            &&& 0 <= cut.place < turns.len()
            &&& cut.place + cut.rollback_count == turns.len()
            &&& cut.rollback_count >= 1
            &&& cut.rollback_count == from_then_on(turns, iso, index).len()
            &&& cut.thread == JsonTree::Obj(
                thread->Obj_0.insert(
                    "turns"@,
                    JsonTree::Arr(turns.filter(|t: JsonTree| stays(turns, iso, index, t))),
                ),
            )
            &&& kept == Some(turns.filter(|t: JsonTree| stays(turns, iso, index, t)))
            &&& distinct_ids(turns) ==> forall|i: int|
                0 <= i < turns.len() ==> (kept->0.contains(#[trigger] turns[i]) <==> field_str(
                    turns[i],
                    "id"@,
                ) is Some && is_earlier(turns, iso, i, index))
            &&& distinct_ids(turns) ==> !kept->0.contains(turns[index])
        },
{
    let index = turn_index(turns, target) as int;
    lemma_turn_index(turns, target);
    let order = in_time(turns, iso);
    lemma_in_time_names_all(turns, iso, turns.len() as int);
    assert(timed(turns, iso).take(turns.len() as int) =~= timed(turns, iso));
    lemma_before_target(turns, iso, index, index);
    lemma_place_counts(turns, iso, index);
    let place = place_in_time(order, index) as int;
    let before = order.take(place);
    assert forall|j: int| 0 <= j < before.len() implies 0 <= (#[trigger] before[j]).index
        < turns.len() by {
        assert(before[j] == order[j]);
    }
    lemma_ids_in(before, turns);
    let ids = ids_in(before, turns);
    let wanted = |t: JsonTree| stays(turns, iso, index, t);
    assert forall|t: JsonTree| #[trigger] wanted(t) == (field_str(t, "id"@) matches Some(id)
        && ids.contains(id)) by {
        if let Some(id) = field_str(t, "id"@) {
            if ids.contains(id) {
                let j = choose|j: int|
                    0 <= j < before.len() && field_str(
                        turns[(#[trigger] before[j]).index as int],
                        "id"@,
                    ) == Some(id);
                let i = before[j].index as int;
                assert(names(before, i));
                lemma_before_target(turns, iso, index, i);
                assert(field_str(turns[i], "id"@) == field_str(t, "id"@));
            }
            if stays(turns, iso, index, t) {
                let i = choose|i: int|
                    0 <= i < turns.len() && is_earlier(turns, iso, i, index) && field_str(
                        #[trigger] turns[i],
                        "id"@,
                    ) == field_str(t, "id"@);
                lemma_before_target(turns, iso, index, i);
                let j = choose|j: int| 0 <= j < before.len() && (#[trigger] before[j]).index == i;
                assert(field_str(turns[before[j].index as int], "id"@) == Some(id));
            }
        }
    }
    lemma_turns_with_ids(turns, ids, wanted);
    let kept = turns.filter(wanted);
    if distinct_ids(turns) {
        assert forall|i: int| 0 <= i < turns.len() implies (kept.contains(#[trigger] turns[i])
            <==> field_str(turns[i], "id"@) is Some && is_earlier(turns, iso, i, index)) by {
            if kept.contains(turns[i]) {
                let k = choose|k: int| 0 <= k < kept.len() && kept[k] == turns[i];
                turns.lemma_filter_pred(wanted, k);
            }
            if wanted(turns[i]) {
                turns.lemma_filter_contains(wanted, i);
            }
            if stays(turns, iso, index, turns[i]) {
                let j = choose|j: int|
                    0 <= j < turns.len() && is_earlier(turns, iso, j, index) && field_str(
                        #[trigger] turns[j],
                        "id"@,
                    ) == field_str(turns[i], "id"@);
                if i < j {
                    assert(field_str(turns[i], "id"@) != field_str(turns[j], "id"@));
                } else if j < i {
                    assert(field_str(turns[j], "id"@) != field_str(turns[i], "id"@));
                }
            }
        }
    }
}

// ---------------------------------------------------------------------------------------------
// Cutting
// ---------------------------------------------------------------------------------------------
/// A thread that was cut.
pub struct TrimmedThread {
    pub thread: Json,
    pub rollback_count: usize,
    pub target_index: usize,
    pub chrono_target_pos: usize,
}

impl TrimmedThread {
    pub open spec fn model(self) -> CutModel {
        CutModel {
            thread: tree(self.thread),
            rollback_count: self.rollback_count as int,
            target_index: self.target_index as int,
            place: self.chrono_target_pos as int,
        }
    }
}

fn index_of_turn(turns: &Vec<Json>, id: &str) -> (at: usize)
    ensures
        at == turn_index(trees(turns@), id@),
        at <= turns@.len(),
{
    let ghost all = trees(turns@);
    proof {
        lemma_trees(turns@);
    }
    let mut i: usize = 0;
    assert(all.skip(0) =~= all);
    while i < turns.len()
        invariant
            i <= turns@.len(),
            all == trees(turns@),
            all.len() == turns@.len(),
            forall|k: int| 0 <= k < turns@.len() ==> #[trigger] all[k] == tree(turns@[k]),
            turn_index(all, id@) == i + turn_index(all.skip(i as int), id@),
        decreases turns.len() - i,
    {
        assert(all.skip(i as int).drop_first() =~= all.skip(i + 1));
        assert(all.skip(i as int)[0] == all[i as int]);
        if let Some(found) = turns[i].str_at("id") {
            if same(found, id) {
                return i;
            }
        }
        i += 1;
    }
    i
}

fn turns_in_time(turns: &Vec<Json>, iso: &IsoTimes) -> (order: Vec<TimedTurn>)
    ensures
        order@ == in_time(trees(turns@), *iso),
{
    let ghost all = trees(turns@);
    proof {
        lemma_trees(turns@);
    }
    let mut list: Vec<TimedTurn> = Vec::new();
    let mut i: usize = 0;
    while i < turns.len()
        invariant
            i <= turns@.len(),
            all == trees(turns@),
            all.len() == turns@.len(),
            forall|k: int| 0 <= k < turns@.len() ==> #[trigger] all[k] == tree(turns@[k]),
            list@ == timed(all, *iso).take(i as int),
        decreases turns.len() - i,
    {
        assert(all[i as int] == tree(turns@[i as int]));
        let time: i64 = match parse_turn_timestamp_opt(&turns[i], iso) {
            Some(ts) => ts,
            None => i as i64,
        };
        list.push(TimedTurn { index: i, time });
        i += 1;
        assert(list@ =~= timed(all, *iso).take(i as int));
    }
    assert(list@ =~= timed(all, *iso));
    stable_sort(list)
}

/// The thread without a turn and the turns that came after it in time.
pub fn build_trimmed_thread_view(thread: &Json, target_turn_id: &str, iso: &IsoTimes) -> (r: Result<
    TrimmedThread,
    String,
>)
    ensures
        match r {
            Ok(cut) => trimmed_thread(tree(*thread), target_turn_id@, *iso) == Ok::<
                CutModel,
                Seq<char>,
            >(cut.model()),
            Err(err) => trimmed_thread(tree(*thread), target_turn_id@, *iso) == Err::<
                CutModel,
                Seq<char>,
            >(err@),
        },
{
    let turns = match thread.array_at("turns") {
        Some(turns) => turns,
        None => return Err(owned("thread has no turns payload.")),
    };
    let ghost all = trees(turns@);
    proof {
        lemma_trees(turns@);
    }
    let target_index = index_of_turn(turns, target_turn_id);
    if target_index >= turns.len() {
        return Err(owned("selected turn was not found in the remote thread."));
    }
    let order = turns_in_time(turns, iso);
    proof {
        lemma_in_time_names_all(all, *iso, all.len() as int);
        assert(timed(all, *iso).take(all.len() as int) =~= timed(all, *iso));
        assert(names(order@, target_index as int));
        lemma_place_in_time(order@, target_index as int);
    }
    let mut place: usize = 0;
    assert(order@.skip(0) =~= order@);
    while place < order.len() && order[place].index != target_index
        invariant
            place <= order@.len(),
            place_in_time(order@, target_index as int) == place + place_in_time(
                order@.skip(place as int),
                target_index as int,
            ),
        decreases order.len() - place,
    {
        assert(order@.skip(place as int).drop_first() =~= order@.skip(place + 1));
        place += 1;
    }
    let mut ids: Vec<String> = Vec::new();
    let mut k: usize = 0;
    assert(order@.take(0) =~= Seq::empty());
    assert(ids.deep_view() =~= Seq::empty());
    while k < place
        invariant
            k <= place <= order@.len(),
            all == trees(turns@),
            all.len() == turns@.len(),
            forall|j: int| 0 <= j < turns@.len() ==> #[trigger] all[j] == tree(turns@[j]),
            names_all(order@, all.len() as int),
            ids.deep_view() == ids_in(order@.take(k as int), all),
        decreases place - k,
    {
        assert(order@.take(k + 1).drop_last() =~= order@.take(k as int));
        assert(order@.take(k + 1).last() == order@[k as int]);
        let index = order[k].index;
        assert(0 <= order@[k as int].index < all.len());
        assert(all[index as int] == tree(turns@[index as int]));
        if let Some(id) = turns[index].str_at("id") {
            let ghost before = ids.deep_view();
            ids.push(owned(id));
            assert(ids.deep_view() =~= before.push(id@));
        }
        k += 1;
    }
    let mut kept: Vec<Json> = Vec::new();
    let mut i: usize = 0;
    assert(all.take(0) =~= Seq::empty());
    assert(trees(kept@) =~= Seq::empty());
    while i < turns.len()
        invariant
            i <= turns@.len(),
            all == trees(turns@),
            all.len() == turns@.len(),
            forall|j: int| 0 <= j < turns@.len() ==> #[trigger] all[j] == tree(turns@[j]),
            trees(kept@) == turns_with_ids(all.take(i as int), ids.deep_view()),
        decreases turns.len() - i,
    {
        assert(all.take(i + 1).drop_last() =~= all.take(i as int));
        assert(all.take(i + 1).last() == all[i as int]);
        let keep = match turns[i].str_at("id") {
            Some(id) => lists(&ids, id),
            None => false,
        };
        if keep {
            let ghost before = kept@;
            kept.push(turns[i].copy());
            assert(kept@.drop_last() =~= before);
        }
        i += 1;
    }
    assert(all.take(i as int) =~= all);
    let whole = thread.copy();
    let mut pairs: Vec<(String, Json)> = match whole {
        Json::Obj(pairs) => pairs,
        _ => Vec::new(),
    };
    put(&mut pairs, "turns", Json::Arr(kept));
    Ok(
        TrimmedThread {
            thread: Json::Obj(pairs),
            rollback_count: turns.len() - place,
            target_index,
            chrono_target_pos: place,
        },
    )
}

/// Every time that is written as a text is among those that have to be read.
pub proof fn lemma_time_texts(turns: Seq<JsonTree>, i: int, text: Seq<char>)
    requires
        0 <= i < turns.len(),
        field_str(turns[i], "completedAt"@) == Some(text) || field_str(turns[i], "createdAt"@)
            == Some(text),
    ensures
        time_texts(turns).contains(text),
    decreases turns.len(),
{
    let rest = turns.drop_last();
    let head = time_texts(rest);
    let all = time_texts(turns);
    if i < rest.len() {
        lemma_time_texts(rest, i, text);
        let k = head.index_of(text);
        assert(all[k] == text);
    } else if field_str(turns[i], "completedAt"@) == Some(text) {
        assert(all[head.len() as int] == text);
    } else {
        assert(all.last() == text);
    }
}

} // verus!
