//! What the previews of restores come to.
use vstd::prelude::*;
#[allow(unused_imports)]
use crate::git_laws::says;
#[allow(unused_imports)]
use crate::json::{field_items, field_str, JsonTree};
#[allow(unused_imports)]
use crate::lines::{joined, words_of};
#[allow(unused_imports)]
use crate::number::{decimal, parsed_i64};
#[allow(unused_imports)]
use crate::restore::{
    action_texts, bulleted, confirm_text, conflict_paths, conflicts, count_items, count_level,
    counts_of_items, does, first_three, items_texts, line_added, parts_text, risk_of, risk_text,
    risky_action, risky_actions, shown_text, snippet_of, text_inserted, texts_for, texts_sorted,
    touched_list, touched_paths, touches, turn_texts, GitRiskLevel, RestoreAction, RestoreCounts,
    RestoreItem, TurnTextModel,
};
#[allow(unused_imports)]
use crate::text::{
    lemma_contains_text, lemma_rsplit_once_parts, lemma_text_le_total, lemma_text_le_transitive,
    occurs_at, rsplit_once_at, text_le, trimmed,
};
#[allow(unused_imports)]
use crate::text_laws::{is_blank, lemma_trimmed_blank};

verus! {

// ---------------------------------------------------------------------------------------------
// Counts
// ---------------------------------------------------------------------------------------------
proof fn lemma_count_items(items: Seq<RestoreItem>, p: spec_fn(RestoreItem) -> bool)
    ensures
        count_items(items, p) == items.filter(p).len(),
    decreases items.len(),
{
    reveal(Seq::filter);
    if items.len() > 0 {
        lemma_count_items(items.drop_last(), p);
    }
}

/// The counts of a preview are how many of its items do each thing, and how many do anything.
pub proof fn lemma_counts(items: Seq<RestoreItem>, c: RestoreCounts)
    requires
        counts_of_items(items, c),
    ensures
        c.restore == items.filter(does(RestoreAction::Write)).len(),
        c.delete == items.filter(does(RestoreAction::Delete)).len(),
        c.recreate == items.filter(does(RestoreAction::Recreate)).len(),
        c.conflict == items.filter(conflicts()).len(),
        c.touched + items.filter(does(RestoreAction::Noop)).len() == items.len(),
        c.touched == c.restore + c.delete + c.recreate,
{
    lemma_count_items(items, does(RestoreAction::Write));
    lemma_count_items(items, does(RestoreAction::Delete));
    lemma_count_items(items, does(RestoreAction::Recreate));
    lemma_count_items(items, does(RestoreAction::Noop));
    lemma_count_items(items, conflicts());
    lemma_parts_of_items(items);
}

proof fn lemma_parts_of_items(items: Seq<RestoreItem>)
    ensures
        count_items(items, touches()) + count_items(items, does(RestoreAction::Noop))
            == items.len(),
        count_items(items, touches()) == count_items(items, does(RestoreAction::Write))
            + count_items(items, does(RestoreAction::Delete)) + count_items(
            items,
            does(RestoreAction::Recreate),
        ),
    decreases items.len(),
{
    if items.len() > 0 {
        lemma_parts_of_items(items.drop_last());
    }
}

pub open spec fn paths_of(items: Seq<RestoreItem>) -> Seq<Seq<char>> {
    Seq::new(items.len(), |i: int| items[i].path@)
}

/// The paths that an undo forces are those of the items in conflict, in their order.
pub proof fn lemma_conflict_paths(items: Seq<RestoreItem>)
    ensures
        conflict_paths(items) == paths_of(items.filter(conflicts())),
    decreases items.len(),
{
    reveal(Seq::filter);
    if items.len() > 0 {
        lemma_conflict_paths(items.drop_last());
        let rest = items.drop_last().filter(conflicts());
        assert(paths_of(rest.push(items.last())) =~= paths_of(rest).push(items.last().path@));
    } else {
        assert(paths_of(items.filter(conflicts())) =~= Seq::<Seq<char>>::empty());
    }
}

proof fn lemma_touched_paths(items: Seq<RestoreItem>)
    ensures
        touched_paths(items) == paths_of(items.filter(touches())),
    decreases items.len(),
{
    reveal(Seq::filter);
    if items.len() > 0 {
        lemma_touched_paths(items.drop_last());
        let rest = items.drop_last().filter(touches());
        assert(paths_of(rest.push(items.last())) =~= paths_of(rest).push(items.last().path@));
    } else {
        assert(paths_of(items.filter(touches())) =~= Seq::<Seq<char>>::empty());
    }
}

/// Whether texts stand in order.
pub open spec fn in_order(s: Seq<Seq<char>>) -> bool {
    forall|i: int, j: int| 0 <= i < j < s.len() ==> text_le(#[trigger] s[i], #[trigger] s[j])
}

proof fn lemma_text_inserted(s: Seq<Seq<char>>, x: Seq<char>)
    requires
        in_order(s),
    ensures
        in_order(text_inserted(s, x)),
        text_inserted(s, x).to_multiset() == s.to_multiset().insert(x),
        text_inserted(s, x).len() == s.len() + 1,
        forall|y: Seq<char>| #[trigger] text_inserted(s, x).contains(y) ==> s.contains(y) || y == x,
    decreases s.len(),
{
    broadcast use vstd::seq_lib::group_to_multiset_ensures;

    if s.len() == 0 || text_le(s.last(), x) {
        let r = s.push(x);
        assert forall|i: int, j: int| 0 <= i < j < r.len() implies text_le(
            #[trigger] r[i],
            #[trigger] r[j],
        ) by {
            if j == s.len() && i < s.len() - 1 {
                lemma_text_le_transitive(s[i], s.last(), x);
            }
        }
        assert forall|y: Seq<char>| #[trigger] r.contains(y) implies s.contains(y) || y == x by {
            let k = choose|k: int| 0 <= k < r.len() && r[k] == y;
            if k < s.len() {
                assert(s[k] == y);
            }
        }
    } else {
        let rest = s.drop_last();
        lemma_text_inserted(rest, x);
        lemma_text_le_total(s.last(), x);
        let head = text_inserted(rest, x);
        let r = head.push(s.last());
        assert forall|i: int, j: int| 0 <= i < j < r.len() implies text_le(
            #[trigger] r[i],
            #[trigger] r[j],
        ) by {
            if j == head.len() {
                assert(head.contains(head[i]));
                if head[i] != x {
                    let k = choose|k: int| 0 <= k < rest.len() && rest[k] == head[i];
                    assert(s[k] == head[i]);
                    assert(text_le(s[k], s[s.len() - 1]));
                }
            }
        }
        assert(rest.push(s.last()) =~= s);
        assert(r.to_multiset() =~= s.to_multiset().insert(x));
        assert forall|y: Seq<char>| #[trigger] r.contains(y) implies s.contains(y) || y == x by {
            let k = choose|k: int| 0 <= k < r.len() && r[k] == y;
            if k < head.len() {
                assert(head.contains(y));
                if y != x {
                    let m = choose|m: int| 0 <= m < rest.len() && rest[m] == y;
                    assert(s[m] == y);
                }
            } else {
                assert(s[s.len() - 1] == y);
            }
        }
    }
}

proof fn lemma_texts_sorted(s: Seq<Seq<char>>)
    ensures
        in_order(texts_sorted(s)),
        texts_sorted(s).to_multiset() == s.to_multiset(),
        texts_sorted(s).len() == s.len(),
    decreases s.len(),
{
    broadcast use vstd::seq_lib::group_to_multiset_ensures;

    if s.len() > 0 {
        lemma_texts_sorted(s.drop_last());
        lemma_text_inserted(texts_sorted(s.drop_last()), s.last());
        assert(s.drop_last().push(s.last()) =~= s);
    }
}

/// The list of touched files holds the path of each item that does anything, in order, one on a
/// line; those over a limit are only counted.
pub proof fn lemma_touched_list(items: Seq<RestoreItem>, limit: nat)
    ensures
        ({
            let touched = items.filter(touches());
            exists|paths: Seq<Seq<char>>|
                {
                    &&& in_order(paths)
                    &&& #[trigger] paths.to_multiset() == paths_of(touched).to_multiset()
                    &&& paths.len() == touched.len()
                    &&& touched_list(items, limit) == if touched.len() == 0 {
                        "(none)"@
                    } else if touched.len() <= limit {
                        joined(Seq::new(paths.len(), |i: int| "• "@ + paths[i]), "\n"@)
                    } else {
                        joined(Seq::new(limit, |i: int| "• "@ + paths[i]), "\n"@)
                            + "\n• …and "@ + decimal((touched.len() - limit) as nat) + " more"@
                    }
                }
        }),
{
    lemma_touched_paths(items);
    let touched = items.filter(touches());
    let paths = texts_sorted(touched_paths(items));
    lemma_texts_sorted(touched_paths(items));
    assert(Seq::new(paths.len(), |i: int| "• "@ + paths[i]) =~= bulleted(paths));
    if touched.len() > limit {
        assert(Seq::new(limit, |i: int| "• "@ + paths[i]) =~= bulleted(paths.take(limit as int)));
    }
    assert(paths.to_multiset() == paths_of(touched).to_multiset());
}

/// The question before a restore tells how many files it touches and which, the conflicts, and
/// those that are forced; a risk is told just where there is one.
pub proof fn lemma_confirm_text(
    touched: nat,
    conflict: nat,
    forced: nat,
    list: Seq<char>,
    risk: Seq<char>,
)
    requires
        risk.len() > 0,
    ensures
        confirm_text(touched, conflict, forced, list, risk) == confirm_text(
            touched,
            conflict,
            forced,
            list,
            seq![],
        ) + "\n\nWarning: "@ + risk,
        confirm_text(touched, conflict, forced, list, seq![]) == "You are about to restore "@
            + decimal(touched) + " file(s).\nConflicts detected: "@ + decimal(conflict)
            + ". Forced conflicts selected: "@ + decimal(forced)
            + ".\n\nA backup checkpoint will be created before applying.\n\nTouched files:\n"@
            + list,
{
    reveal_strlit(".\n\nA backup checkpoint will be created before applying.");
    reveal_strlit("\n\nTouched files:\n");
    reveal_strlit(".\n\nA backup checkpoint will be created before applying.\n\nTouched files:\n");
    assert(".\n\nA backup checkpoint will be created before applying."@ + "\n\nTouched files:\n"@
        =~= ".\n\nA backup checkpoint will be created before applying.\n\nTouched files:\n"@);
    assert(confirm_text(touched, conflict, forced, list, seq![]) =~= "You are about to restore "@
        + decimal(touched) + " file(s).\nConflicts detected: "@ + decimal(conflict)
        + ". Forced conflicts selected: "@ + decimal(forced) + (
    ".\n\nA backup checkpoint will be created before applying."@ + "\n\nTouched files:\n"@) + list);
}

// ---------------------------------------------------------------------------------------------
// Snippets
// ---------------------------------------------------------------------------------------------
/// A text is shown by its words, with one space between them, as far as it may be long; where
/// more follows, an ellipsis stands for it.
pub proof fn lemma_snippet(text: Seq<char>, most: nat, absent: Seq<char>)
    ensures
        ({
            let line = joined(words_of(text), " "@);
            &&& line.len() <= most ==> snippet_of(text, most) == line
            &&& line.len() > most ==> {
                &&& snippet_of(text, most).len() == most + 1
                &&& snippet_of(text, most).last() == '…'
                &&& snippet_of(text, most).drop_last() == line.take(most as int)
            }
        }),
        is_blank(text) ==> shown_text(text, absent) == absent,
        !is_blank(text) ==> shown_text(text, absent) == snippet_of(text, 360),
{
    lemma_trimmed_blank(text);
    let line = joined(words_of(text), " "@);
    if line.len() > most {
        assert(line.take(most as int).push('…').drop_last() =~= line.take(most as int));
    }
}

// ---------------------------------------------------------------------------------------------
// Risks
// ---------------------------------------------------------------------------------------------
/// What moves the working tree is a high risk; a fetch is told; nothing else counts.
pub proof fn lemma_risk(summary: Seq<char>)
    ensures
        risk_of(summary) == Some(GitRiskLevel::High) <==> {
            ||| says(summary, "pull"@)
            ||| says(summary, "rebase"@)
            ||| says(summary, "merge"@)
            ||| says(summary, "checkout"@)
            ||| says(summary, "switch"@)
            ||| says(summary, "reset"@)
        },
        risk_of(summary) == Some(GitRiskLevel::Info) ==> says(summary, "fetch"@),
        says(summary, "fetch"@) ==> risk_of(summary) is Some,
{
    let low = crate::lines::ascii_lower(summary);
    lemma_contains_text(low, "pull"@);
    lemma_contains_text(low, "rebase"@);
    lemma_contains_text(low, "merge"@);
    lemma_contains_text(low, "checkout"@);
    lemma_contains_text(low, "switch"@);
    lemma_contains_text(low, "reset"@);
    lemma_contains_text(low, "fetch"@);
}

/// A line of the reflog tells what was done and, behind the last bar, when; what was done later
/// than a checkpoint counts by its risk, what was done no later does not.
pub proof fn lemma_risky_action(line: Seq<char>, what: Seq<char>, when: Seq<char>, since: i64)
    requires
        line == what + "|"@ + when,
        !when.contains('|'),
    ensures
        parsed_i64(trimmed(when)) is Some && parsed_i64(trimmed(when))->0 > since ==> match risk_of(
            trimmed(what),
        ) {
            Some(level) => risky_action(line, since) == Some((trimmed(what), level)),
            None => risky_action(line, since) is None,
        },
        parsed_i64(trimmed(when)) is Some && parsed_i64(trimmed(when))->0 <= since ==> risky_action(
            line,
            since,
        ) is None,
        parsed_i64(trimmed(when)) is None ==> risky_action(line, since) is None,
{
    reveal_strlit("|");
    lemma_rsplit_once_parts(line, "|"@);
    let at = what.len() as int;
    assert(line.subrange(at, at + 1) =~= "|"@);
    assert(occurs_at(line, "|"@, at));
    let p = rsplit_once_at(line, "|"@)->0;
    let k = p.0.len() as int;
    assert(line == p.0 + "|"@ + p.1);
    assert(line[k] == '|');
    if k > at {
        assert(when[k - at - 1] == line[k]);
        assert(when.contains(when[k - at - 1]));
    }
    assert(k == at);
    assert(p.0 =~= line.take(k));
    assert(what =~= line.take(at));
    assert(p.1 =~= line.skip(k + 1));
    assert(when =~= line.skip(at + 1));
}

pub open spec fn is_risky(since: i64) -> spec_fn(Seq<char>) -> bool {
    |line: Seq<char>| risky_action(line, since) is Some
}

/// The risky actions are those of the lines that tell one, in their order.
pub proof fn lemma_risky_actions(all: Seq<Seq<char>>, since: i64)
    ensures
        risky_actions(all, since).len() == all.filter(is_risky(since)).len(),
        forall|i: int|
            0 <= i < risky_actions(all, since).len() ==> Some(
                #[trigger] risky_actions(all, since)[i],
            ) == risky_action(all.filter(is_risky(since))[i], since),
    decreases all.len(),
{
    reveal(Seq::filter);
    if all.len() > 0 {
        lemma_risky_actions(all.drop_last(), since);
    }
}

pub open spec fn is_of_level(level: GitRiskLevel) -> spec_fn((Seq<char>, GitRiskLevel)) -> bool {
    |a: (Seq<char>, GitRiskLevel)| a.1 == level
}

/// The summary counts the actions of each level and keeps the first three; every action is
/// counted once.
pub proof fn lemma_risk_counts(actions: Seq<(Seq<char>, GitRiskLevel)>)
    ensures
        count_level(actions, GitRiskLevel::High) == actions.filter(
            is_of_level(GitRiskLevel::High),
        ).len(),
        count_level(actions, GitRiskLevel::Info) == actions.filter(
            is_of_level(GitRiskLevel::Info),
        ).len(),
        count_level(actions, GitRiskLevel::High) + count_level(actions, GitRiskLevel::Info)
            == actions.len(),
        first_three(action_texts(actions)).len() == if actions.len() < 3 {
            actions.len()
        } else {
            3
        },
        forall|i: int|
            0 <= i < actions.len() && i < 3 ==> first_three(action_texts(actions))[i] == (
            #[trigger] actions[i]).0,
    decreases actions.len(),
{
    reveal(Seq::filter);
    if actions.len() > 0 {
        lemma_risk_counts(actions.drop_last());
    }
}

/// The warning tells both counts, and the recent actions where there are any.
pub proof fn lemma_risk_text(high: nat, info: nat, recent: Seq<Seq<char>>)
    requires
        recent.len() > 0,
    ensures
        risk_text(high, info, seq![]) == "Git changed since this checkpoint: "@ + decimal(high)
            + " high-risk action(s), "@ + decimal(info) + " fetch action(s)."@,
        risk_text(high, info, recent) == risk_text(high, info, seq![]) + " Recent: "@ + joined(
            recent,
            " • "@,
        ),
{
}

// ---------------------------------------------------------------------------------------------
// Texts of turns
// ---------------------------------------------------------------------------------------------
/// The texts of the parts that are text, in their order.
pub open spec fn part_texts(parts: Seq<JsonTree>) -> Seq<Seq<char>>
    decreases parts.len(),
{
    if parts.len() == 0 {
        seq![]
    } else if field_str(parts.last(), "type"@) == Some("text"@) && field_str(
        parts.last(),
        "text"@,
    ) is Some {
        part_texts(parts.drop_last()).push(field_str(parts.last(), "text"@)->0)
    } else {
        part_texts(parts.drop_last())
    }
}

/// The texts that the user wrote in some items, in their order.
pub open spec fn user_texts(items: Seq<JsonTree>) -> Seq<Seq<char>>
    decreases items.len(),
{
    if items.len() == 0 {
        seq![]
    } else if field_str(items.last(), "type"@) == Some("userMessage"@) && field_items(
        items.last(),
        "content"@,
    ) is Some {
        user_texts(items.drop_last()) + part_texts(field_items(items.last(), "content"@)->0)
    } else {
        user_texts(items.drop_last())
    }
}

/// The texts that the agent wrote in some items, in their order.
pub open spec fn agent_texts(items: Seq<JsonTree>) -> Seq<Seq<char>>
    decreases items.len(),
{
    if items.len() == 0 {
        seq![]
    } else if field_str(items.last(), "type"@) == Some("agentMessage"@) && field_str(
        items.last(),
        "text"@,
    ) is Some {
        agent_texts(items.drop_last()).push(field_str(items.last(), "text"@)->0)
    } else {
        agent_texts(items.drop_last())
    }
}

pub open spec fn none_empty(texts: Seq<Seq<char>>) -> bool {
    forall|i: int| 0 <= i < texts.len() ==> (#[trigger] texts[i]).len() > 0
}

proof fn lemma_line_added(texts: Seq<Seq<char>>, text: Seq<char>)
    requires
        none_empty(texts),
    ensures
        line_added(joined(texts, "\n"@), text) == joined(texts.push(text), "\n"@),
{
    assert(texts.push(text).drop_last() =~= texts);
    if texts.len() > 0 {
        lemma_joined_filled(texts);
    } else {
        assert(Seq::<char>::empty() + text =~= text);
    }
}

proof fn lemma_joined_filled(texts: Seq<Seq<char>>)
    requires
        none_empty(texts),
        texts.len() > 0,
    ensures
        joined(texts, "\n"@).len() > 0,
{
    assert(texts[texts.len() - 1].len() > 0);
}

proof fn lemma_parts_text(parts: Seq<JsonTree>, before: Seq<Seq<char>>)
    requires
        none_empty(before + part_texts(parts)),
    ensures
        parts_text(parts, joined(before, "\n"@)) == joined(before + part_texts(parts), "\n"@),
    decreases parts.len(),
{
    if parts.len() == 0 {
        assert(before + part_texts(parts) =~= before);
    } else {
        let rest = parts.drop_last();
        let all = before + part_texts(parts);
        let head = before + part_texts(rest);
        assert forall|i: int| 0 <= i < head.len() implies (#[trigger] head[i]).len() > 0 by {
            assert(all[i] == head[i]);
        }
        lemma_parts_text(rest, before);
        if part_texts(parts).len() > part_texts(rest).len() {
            let text = field_str(parts.last(), "text"@)->0;
            assert(all =~= head.push(text));
            lemma_line_added(head, text);
        }
    }
}

/// The texts of a turn are what the user wrote and what the agent wrote, each with a line feed
/// between its texts.
pub proof fn lemma_items_texts(items: Seq<JsonTree>)
    requires
        none_empty(user_texts(items)),
        none_empty(agent_texts(items)),
    ensures
        items_texts(items).0 == joined(user_texts(items), "\n"@),
        items_texts(items).1 == joined(agent_texts(items), "\n"@),
    decreases items.len(),
{
    if items.len() > 0 {
        let rest = items.drop_last();
        let item = items.last();
        assert(none_empty(user_texts(rest))) by {
            assert forall|i: int| 0 <= i < user_texts(rest).len() implies (
            #[trigger] user_texts(rest)[i]).len() > 0 by {
                assert(user_texts(items)[i] == user_texts(rest)[i]);
            }
        }
        assert(none_empty(agent_texts(rest))) by {
            assert forall|i: int| 0 <= i < agent_texts(rest).len() implies (
            #[trigger] agent_texts(rest)[i]).len() > 0 by {
                assert(agent_texts(items)[i] == agent_texts(rest)[i]);
            }
        }
        lemma_items_texts(rest);
        reveal_strlit("userMessage");
        reveal_strlit("agentMessage");
        assert("userMessage"@[0] != "agentMessage"@[0]);
        if field_str(item, "type"@) == Some("userMessage"@) && field_items(
            item,
            "content"@,
        ) is Some {
            lemma_parts_text(field_items(item, "content"@)->0, user_texts(rest));
        }
        if field_str(item, "type"@) == Some("agentMessage"@) && field_str(item, "text"@) is Some {
            lemma_line_added(agent_texts(rest), field_str(item, "text"@)->0);
        }
    }
}

pub open spec fn is_told_turn() -> spec_fn(JsonTree) -> bool {
    |turn: JsonTree| field_str(turn, "id"@) is Some && field_items(turn, "items"@) is Some
}

/// Every turn with an identifier and items has its texts, in the order of the turns.
pub proof fn lemma_turn_texts(turns: Seq<JsonTree>)
    ensures
        turn_texts(turns).len() == turns.filter(is_told_turn()).len(),
        forall|i: int|
            0 <= i < turn_texts(turns).len() ==> {
                let turn = turns.filter(is_told_turn())[i];
                let shown = #[trigger] turn_texts(turns)[i];
                &&& field_str(turn, "id"@) == Some(shown.id)
                &&& items_texts(field_items(turn, "items"@)->0) == (shown.user, shown.assistant)
            },
    decreases turns.len(),
{
    reveal(Seq::filter);
    if turns.len() > 0 {
        lemma_turn_texts(turns.drop_last());
    }
}

/// The texts for a turn are those of the last entry with its identifier.
pub proof fn lemma_texts_for(list: Seq<TurnTextModel>, id: Seq<char>)
    ensures
        match texts_for(list, id) {
            Some(t) => exists|i: int|
                {
                    &&& 0 <= i < list.len()
                    &&& (#[trigger] list[i]).id == id
                    &&& t == (list[i].user, list[i].assistant)
                    &&& forall|j: int| i < j < list.len() ==> list[j].id != id
                },
            None => forall|i: int| 0 <= i < list.len() ==> (#[trigger] list[i]).id != id,
        },
    decreases list.len(),
{
    if list.len() > 0 {
        let rest = list.drop_last();
        if list.last().id == id {
            assert(list[list.len() - 1].id == id);
        } else {
            lemma_texts_for(rest, id);
            if texts_for(rest, id) is Some {
                let i = choose|i: int|
                    {
                        &&& 0 <= i < rest.len()
                        &&& (#[trigger] rest[i]).id == id
                        &&& texts_for(rest, id)->0 == (rest[i].user, rest[i].assistant)
                        &&& forall|j: int| i < j < rest.len() ==> rest[j].id != id
                    };
                assert(list[i] == rest[i]);
                assert forall|j: int| i < j < list.len() implies list[j].id != id by {
                    if j < rest.len() {
                        assert(rest[j] == list[j]);
                    }
                }
            } else {
                assert forall|i: int| 0 <= i < list.len() implies (#[trigger] list[i]).id != id by {
                    if i < rest.len() {
                        assert(rest[i] == list[i]);
                    }
                }
            }
        }
    }
}

} // verus!
