//! What the dialogues with git come to.
use vstd::prelude::*;
#[allow(unused_imports)]
use crate::git_flow::{
    active_paths, branch_step, commit_result, commit_step, fetch_step, init_step, pull_step,
    push_outcome, stage_all, stage_step, upstream_said, upstream_step, BranchAction, InitModel,
    InitRepoOptions, PushModel, StageAllModel, StageModel, StepModel, UpstreamModel,
    UpstreamOptions,
};
#[allow(unused_imports)]
use crate::git_status::{entries_of, is_porcelain, speaks_of};
#[allow(unused_imports)]
use crate::lines::{ascii_lower, lines_of};
#[allow(unused_imports)]
use crate::number::decimal;
#[allow(unused_imports)]
use crate::text::{lemma_contains_text, occurs_at, starts_with_text, trimmed};

verus! {

/// Whether words stand in a text, in any case of its ASCII letters.
pub open spec fn says(text: Seq<char>, words: Seq<char>) -> bool {
    exists|at: int| occurs_at(ascii_lower(text), words, at)
}

proof fn lemma_says(text: Seq<char>, words: Seq<char>)
    ensures
        speaks_of(text, words) == says(text, words),
{
    lemma_contains_text(ascii_lower(text), words);
}

// ---------------------------------------------------------------------------------------------
// Commits
// ---------------------------------------------------------------------------------------------
/// Whether a status listing names a path.
pub open spec fn named_in(status: Seq<char>) -> spec_fn(Seq<char>) -> bool {
    |path: Seq<char>|
        exists|i: int|
            0 <= i < entries_of(lines_of(status)).len() && (#[trigger] entries_of(
                lines_of(status),
            )[i]).path == path
}

/// Whether the first line of a listing has something in the column of staged changes.
pub open spec fn shows_staged(listing: Seq<char>) -> bool {
    lines_of(listing).len() > 0 && lines_of(listing)[0].len() > 0 && lines_of(listing)[0][0] != ' '
}

/// Whether a line of a listing shows a file that is gone and not yet staged.
pub open spec fn shows_deleted(listing: Seq<char>) -> bool {
    exists|i: int| 0 <= i < lines_of(listing).len() && starts_with_text(
        #[trigger] lines_of(listing)[i],
        " D"@,
    )
}

/// What the replies from a listing on say of a path: whether it is staged, once they are complete.
pub open spec fn listed_as(replies: Seq<Result<Seq<char>, Seq<char>>>) -> Option<bool> {
    if replies.len() == 0 || replies[0] is Err {
        None
    } else {
        let listing = replies[0]->Ok_0;
        let waits = trimmed(listing).len() > 0 && !shows_staged(listing) && shows_deleted(listing);
        if !waits && replies.len() == 1 {
            Some(trimmed(listing).len() > 0 && shows_staged(listing))
        } else if waits && replies.len() == 3 && replies[2] is Ok {
            Some(shows_staged(replies[2]->Ok_0))
        } else {
            None
        }
    }
}

/// What the replies to the staging of one path say: whether it is staged, once they are complete.
pub open spec fn staged_as(replies: Seq<Result<Seq<char>, Seq<char>>>) -> Option<bool> {
    if replies.len() == 0 {
        None
    } else if replies[0] is Ok {
        listed_as(replies.skip(1))
    } else if says(replies[0]->Err_0, "did not match any files"@) && replies.len() > 1 {
        listed_as(replies.skip(2))
    } else {
        None
    }
}

/// Groups of replies one after the other.
pub open spec fn in_turn(
    groups: Seq<Seq<Result<Seq<char>, Seq<char>>>>,
) -> Seq<Result<Seq<char>, Seq<char>>>
    decreases groups.len(),
{
    if groups.len() == 0 {
        Seq::empty()
    } else {
        in_turn(groups.drop_last()) + groups.last()
    }
}

/// The paths that the groups of replies, one for each, say are staged, in their order.
pub open spec fn staged_paths(
    paths: Seq<Seq<char>>,
    groups: Seq<Seq<Result<Seq<char>, Seq<char>>>>,
) -> Seq<Seq<char>>
    decreases groups.len(),
{
    if groups.len() == 0 {
        Seq::empty()
    } else {
        let before = staged_paths(paths, groups.drop_last());
        if staged_as(groups.last()) == Some(true) {
            before.push(paths[groups.len() - 1])
        } else {
            before
        }
    }
}

proof fn lemma_active(selected: Seq<Seq<char>>, status: Seq<char>)
    ensures
        active_paths(selected, entries_of(lines_of(status))) == selected.filter(named_in(status)),
    decreases selected.len(),
{
    reveal(Seq::filter);
    if selected.len() > 0 {
        lemma_active(selected.drop_last(), status);
    }
}

proof fn lemma_staged_as(
    path: Seq<char>,
    group: Seq<Result<Seq<char>, Seq<char>>>,
    replies: Seq<Result<Seq<char>, Seq<char>>>,
    at: int,
)
    requires
        0 <= at,
        at + group.len() <= replies.len(),
        replies.subrange(at, at + group.len()) == group,
        staged_as(group) is Some,
    ensures
        stage_step(path, replies, at) == StageModel::Done(staged_as(group)->0, at + group.len()),
{
    assert forall|i: int| 0 <= i < group.len() implies replies[at + i] == #[trigger] group[i] by {
        assert(replies.subrange(at, at + group.len())[i] == replies[at + i]);
    }
    assert(replies[at] == group[0]);
    let from = if group[0] is Ok {
        1int
    } else {
        lemma_says(group[0]->Err_0, "did not match any files"@);
        2int
    };
    let rest = group.skip(from);
    assert(rest[0] == group[from]);
    assert(replies[at + from] == group[from]);
    if rest.len() == 3 {
        assert(rest[2] == group[from + 2]);
        assert(replies[at + from + 2] == group[from + 2]);
    }
}

proof fn lemma_groups_staged(
    paths: Seq<Seq<char>>,
    first: Result<Seq<char>, Seq<char>>,
    groups: Seq<Seq<Result<Seq<char>, Seq<char>>>>,
    tail: Seq<Result<Seq<char>, Seq<char>>>,
)
    requires
        groups.len() <= paths.len(),
        forall|i: int| 0 <= i < groups.len() ==> staged_as(#[trigger] groups[i]) is Some,
    ensures
        stage_all(
            paths.take(groups.len() as int),
            seq![first] + in_turn(groups) + tail,
        ) == StageAllModel::Done(staged_paths(paths, groups), 1 + in_turn(groups).len() as int),
    decreases groups.len(),
{
    let replies = seq![first] + in_turn(groups) + tail;
    if groups.len() == 0 {
        assert(paths.take(0) =~= Seq::empty());
    } else {
        let n = groups.len() as int;
        let rest = groups.drop_last();
        let last = groups.last();
        assert(groups[n - 1] == last);
        assert forall|i: int| 0 <= i < rest.len() implies staged_as(#[trigger] rest[i]) is Some by {
            assert(rest[i] == groups[i]);
        }
        lemma_groups_staged(paths, first, rest, last + tail);
        assert(seq![first] + in_turn(rest) + (last + tail) =~= replies);
        assert(paths.take(n).drop_last() =~= paths.take(n - 1));
        assert(paths.take(n).last() == paths[n - 1]);
        let at = 1 + in_turn(rest).len() as int;
        assert(replies.subrange(at, at + last.len()) =~= last);
        lemma_staged_as(paths[n - 1], last, replies, at);
    }
}

proof fn lemma_stops_there(
    paths: Seq<Seq<char>>,
    replies: Seq<Result<Seq<char>, Seq<char>>>,
    k: int,
)
    requires
        0 <= k <= paths.len(),
        !(stage_all(paths.take(k), replies) is Done),
    ensures
        stage_all(paths, replies) == stage_all(paths.take(k), replies),
    decreases paths.len() - k,
{
    if k == paths.len() {
        assert(paths.take(k) =~= paths);
    } else {
        assert(paths.take(k + 1).drop_last() =~= paths.take(k));
        lemma_stops_there(paths, replies, k + 1);
    }
}

/// A commit of selected files first lists them. Of those that the listing names, in the order of
/// the selection, one after the other is added; then the commit takes exactly those that are
/// reported as staged, all of them, and the result says how it went.
pub proof fn lemma_commit_dialogue(
    selected: Seq<Seq<char>>,
    message: Seq<char>,
    status: Seq<char>,
    groups: Seq<Seq<Result<Seq<char>, Seq<char>>>>,
    reply: Result<Seq<char>, Seq<char>>,
)
    requires
        selected.len() > 0,
        is_porcelain(lines_of(status)),
        groups.len() <= selected.filter(named_in(status)).len(),
        forall|i: int| 0 <= i < groups.len() ==> staged_as(#[trigger] groups[i]) is Some,
    ensures
        ({
            let active = selected.filter(named_in(status));
            let listed = seq![Ok::<Seq<char>, Seq<char>>(status)];
            let so_far = listed + in_turn(groups);
            let staged = staged_paths(active, groups);
            &&& commit_step(selected, message, Seq::empty()) == StepModel::Run(
                seq!["status"@, "--porcelain=v1"@, "--untracked-files=all"@, "--"@] + selected,
            )
            &&& active.len() == 0 ==> commit_step(selected, message, listed) == StepModel::Done(
                Err(
                    "Selected files no longer have changes. Refresh Git status and try again."@,
                ),
            )
            &&& groups.len() < active.len() ==> commit_step(selected, message, so_far)
                == StepModel::Run(seq!["add"@, "--"@, active[groups.len() as int]])
            &&& 0 < groups.len() == active.len() && staged.len() == 0 ==> commit_step(
                selected,
                message,
                so_far,
            ) == StepModel::Done(
                Err(
                    "Selected files no longer match repository paths. Refresh Git status and try again."@,
                ),
            )
            &&& groups.len() == active.len() && staged.len() > 0 ==> commit_step(
                selected,
                message,
                so_far,
            ) == StepModel::Run(seq!["commit"@, "-m"@, message, "--"@] + staged) && commit_step(
                selected,
                message,
                so_far.push(reply),
            ) == StepModel::Done(
                commit_result(reply, selected.len() as int, staged.len() as int),
            )
        }),
{
    let active = selected.filter(named_in(status));
    let first = Ok::<Seq<char>, Seq<char>>(status);
    let so_far = seq![first] + in_turn(groups);
    lemma_active(selected, status);
    let none = Seq::<Result<Seq<char>, Seq<char>>>::empty();
    lemma_groups_staged(active, first, groups, none);
    assert(so_far + none =~= so_far);
    lemma_groups_staged(active, first, groups, seq![reply]);
    assert(so_far + seq![reply] =~= so_far.push(reply));
    let k = groups.len() as int;
    if k < active.len() {
        assert(active.take(k + 1).drop_last() =~= active.take(k));
        assert(active.take(k + 1).last() == active[k]);
        lemma_stops_there(active, so_far, k + 1);
    } else {
        assert(active.take(k) =~= active);
        assert(so_far.push(reply)[so_far.len() as int] == reply);
    }
}

/// The staging of a path: once it was added, or was taken out of the index because there is no such
/// file, its status is listed; a file that is gone is taken out of the index then. What fails ends
/// the commit.
pub proof fn lemma_staging_dialogue(
    selected: Seq<Seq<char>>,
    message: Seq<char>,
    status: Seq<char>,
    groups: Seq<Seq<Result<Seq<char>, Seq<char>>>>,
    added: Result<Seq<char>, Seq<char>>,
    removed: Result<Seq<char>, Seq<char>>,
    listing: Seq<char>,
    err: Seq<char>,
)
    requires
        selected.len() > 0,
        is_porcelain(lines_of(status)),
        groups.len() < selected.filter(named_in(status)).len(),
        forall|i: int| 0 <= i < groups.len() ==> staged_as(#[trigger] groups[i]) is Some,
    ensures
        ({
            let path = selected.filter(named_in(status))[groups.len() as int];
            let list = StepModel::Run(
                seq!["status"@, "--porcelain=v1"@, "--untracked-files=all"@, "--"@, path],
            );
            let remove = StepModel::Run(
                seq!["rm"@, "--cached"@, "--ignore-unmatch"@, "--"@, path],
            );
            let failed = StepModel::Done(
                Err("Commit failed while staging `"@ + path + "`: "@ + err),
            );
            let so_far = seq![Ok::<Seq<char>, Seq<char>>(status)] + in_turn(groups);
            let gone = added matches Err(e) && says(e, "did not match any files"@);
            let asked = if added is Ok {
                so_far.push(added)
            } else {
                so_far.push(added).push(removed)
            };
            let shown = asked.push(Ok(listing));
            &&& added is Ok || gone ==> {
                &&& added is Err ==> commit_step(selected, message, so_far.push(added)) == remove
                &&& commit_step(selected, message, asked) == list
                &&& commit_step(selected, message, asked.push(Err(err))) == failed
                &&& trimmed(listing).len() > 0 && !shows_staged(listing) && shows_deleted(listing)
                    ==> commit_step(selected, message, shown) == remove && commit_step(
                    selected,
                    message,
                    shown.push(removed),
                ) == list && commit_step(selected, message, shown.push(removed).push(Err(err)))
                    == failed
            }
            &&& !says(err, "did not match any files"@) ==> commit_step(
                selected,
                message,
                so_far.push(Err(err)),
            ) == failed
        }),
{
    let active = selected.filter(named_in(status));
    let k = groups.len() as int;
    let path = active[k];
    let first = Ok::<Seq<char>, Seq<char>>(status);
    let so_far = seq![first] + in_turn(groups);
    let at = so_far.len() as int;
    lemma_active(selected, status);
    lemma_says(err, "did not match any files"@);
    if let Err(e) = added {
        lemma_says(e, "did not match any files"@);
    }
    lemma_staging_at(selected, message, status, groups, seq![added]);
    lemma_staging_at(selected, message, status, groups, seq![added, removed]);
    lemma_staging_at(selected, message, status, groups, seq![Err(err)]);
    let begun = if added is Ok {
        seq![added]
    } else {
        seq![added, removed]
    };
    let asked = so_far + begun;
    assert(so_far.push(added) =~= so_far + seq![added]);
    assert(so_far.push(added).push(removed) =~= so_far + seq![added, removed]);
    assert(so_far.push(Err(err)) =~= so_far + seq![Err::<Seq<char>, Seq<char>>(err)]);
    let ok = Ok::<Seq<char>, Seq<char>>(listing);
    let bad = Err::<Seq<char>, Seq<char>>(err);
    lemma_staging_at(selected, message, status, groups, begun.push(bad));
    lemma_staging_at(selected, message, status, groups, begun.push(ok));
    lemma_staging_at(selected, message, status, groups, begun.push(ok).push(removed));
    lemma_staging_at(selected, message, status, groups, begun.push(ok).push(removed).push(bad));
    assert(asked.push(bad) =~= so_far + begun.push(bad));
    assert(asked.push(ok) =~= so_far + begun.push(ok));
    assert(asked.push(ok).push(removed) =~= so_far + begun.push(ok).push(removed));
    assert(asked.push(ok).push(removed).push(bad) =~= so_far + begun.push(ok).push(removed).push(
        bad,
    ));
    assert(seq!["status"@, "--porcelain=v1"@, "--untracked-files=all"@, "--"@] + seq![path]
        =~= seq!["status"@, "--porcelain=v1"@, "--untracked-files=all"@, "--"@, path]);
    let n = begun.len() as int;
    assert forall|i: int| 0 <= i < n implies (so_far + begun.push(ok).push(removed).push(bad))[at + i]
        == begun[i] by {}
    assert((so_far + begun.push(bad))[at + n] == bad);
    assert((so_far + begun.push(ok))[at + n] == ok);
    assert((so_far + begun.push(ok).push(removed))[at + n] == ok);
    assert((so_far + begun.push(ok).push(removed).push(bad))[at + n] == ok);
    assert((so_far + begun.push(ok).push(removed).push(bad))[at + n + 2] == bad);
    assert((so_far + begun)[at] == added);
    assert((so_far + begun.push(bad))[at] == added);
    assert((so_far + begun.push(ok))[at] == added);
    assert((so_far + begun.push(ok).push(removed))[at] == added);
    assert((so_far + begun.push(ok).push(removed).push(bad))[at] == added);
    assert((so_far + seq![bad])[at] == bad);
    assert((so_far + seq![added])[at] == added);
    assert((so_far + seq![added, removed])[at] == added);
}

/// While a path is being staged, the commit does what its staging does.
proof fn lemma_staging_at(
    selected: Seq<Seq<char>>,
    message: Seq<char>,
    status: Seq<char>,
    groups: Seq<Seq<Result<Seq<char>, Seq<char>>>>,
    tail: Seq<Result<Seq<char>, Seq<char>>>,
)
    requires
        selected.len() > 0,
        is_porcelain(lines_of(status)),
        groups.len() < selected.filter(named_in(status)).len(),
        forall|i: int| 0 <= i < groups.len() ==> staged_as(#[trigger] groups[i]) is Some,
    ensures
        ({
            let path = selected.filter(named_in(status))[groups.len() as int];
            let so_far = seq![Ok::<Seq<char>, Seq<char>>(status)] + in_turn(groups);
            let step = commit_step(selected, message, so_far + tail);
            match stage_step(path, so_far + tail, so_far.len() as int) {
                StageModel::Run(args) => step == StepModel::Run(args),
                StageModel::Failed(err) => step == StepModel::Done(
                    Err("Commit failed while staging `"@ + path + "`: "@ + err),
                ),
                StageModel::Done(..) => true,
            }
        }),
{
    let active = selected.filter(named_in(status));
    let k = groups.len() as int;
    let first = Ok::<Seq<char>, Seq<char>>(status);
    let so_far = seq![first] + in_turn(groups);
    let all = so_far + tail;
    lemma_active(selected, status);
    lemma_groups_staged(active, first, groups, tail);
    assert(all[0] == first);
    assert(active.take(k + 1).drop_last() =~= active.take(k));
    assert(active.take(k + 1).last() == active[k]);
    if !(stage_step(active[k], all, so_far.len() as int) is Done) {
        lemma_stops_there(active, all, k + 1);
    }
}

/// What is said of a commit: the first line of what git said, and how many of the selected files
/// were left out; or what the error was about.
pub proof fn lemma_commit_result(
    line: Seq<char>,
    rest: Seq<char>,
    err: Seq<char>,
    selected: int,
    staged: int,
)
    requires
        !line.contains('\n'),
        line.len() > 0 ==> line.last() != '\r',
    ensures
        selected <= staged ==> commit_result(Ok(line + "\n"@ + rest), selected, staged) == Ok::<
            Seq<char>,
            Seq<char>,
        >("Commit succeeded: "@ + trimmed(line)),
        selected > staged ==> commit_result(Ok(line + "\n"@ + rest), selected, staged) == Ok::<
            Seq<char>,
            Seq<char>,
        >(
            "Commit succeeded: "@ + trimmed(line) + " (ignored "@ + decimal(
                (selected - staged) as nat,
            ) + " stale selection(s))."@,
        ),
        commit_result(Err(err), selected, staged) is Err,
        says(err, "nothing to commit"@) ==> commit_result(Err(err), selected, staged) == Err::<
            Seq<char>,
            Seq<char>,
        >("Nothing to commit for selected files."@),
        !says(err, "nothing to commit"@) && (says(err, "author identity unknown"@) || says(
            err,
            "please tell me who you are"@,
        ) || says(err, "unable to auto-detect email address"@)) ==> commit_result(
            Err(err),
            selected,
            staged,
        ) == Err::<Seq<char>, Seq<char>>(
            "Commit failed: Git identity is not configured. Set `git config user.name \"Your Name\"` and `git config user.email \"you@example.com\"`, then retry."@,
        ),
        !says(err, "nothing to commit"@) && !says(err, "author identity unknown"@) && !says(
            err,
            "please tell me who you are"@,
        ) && !says(err, "unable to auto-detect email address"@) && !says(err, "index.lock"@)
            && !says(err, "conflict"@) ==> commit_result(Err(err), selected, staged) == Err::<
            Seq<char>,
            Seq<char>,
        >("Commit failed: "@ + err),
{
    crate::lines::lemma_line_ends(line, rest);
    assert((seq![line] + lines_of(rest))[0] == line);
    lemma_says(err, "nothing to commit"@);
    lemma_says(err, "author identity unknown"@);
    lemma_says(err, "please tell me who you are"@);
    lemma_says(err, "unable to auto-detect email address"@);
    lemma_says(err, "index.lock"@);
    lemma_says(err, "conflict"@);
}

// ---------------------------------------------------------------------------------------------
// Fetch and pull
// ---------------------------------------------------------------------------------------------
/// A fetch prunes, and tells the first line of what git said, or the error.
pub proof fn lemma_fetch_dialogue(line: Seq<char>, rest: Seq<char>, err: Seq<char>)
    requires
        !line.contains('\n'),
        line.len() > 0 ==> line.last() != '\r',
    ensures
        fetch_step(Seq::empty()) == StepModel::Run(seq!["fetch"@, "--prune"@]),
        trimmed(line).len() > 0 ==> fetch_step(seq![Ok(line + "\n"@ + rest)]) == StepModel::Done(
            Ok("Fetch completed: "@ + trimmed(line)),
        ),
        trimmed(line).len() == 0 ==> fetch_step(seq![Ok(line + "\n"@ + rest)]) == StepModel::Done(
            Ok("Fetch completed."@),
        ),
        fetch_step(seq![Err(err)]) == StepModel::Done(Err("Fetch failed: "@ + err)),
{
    crate::lines::lemma_line_ends(line, rest);
    assert((seq![line] + lines_of(rest))[0] == line);
}

/// A pull looks for local changes first and is refused where there are some; else it only goes
/// forward, and where that is not possible it says so.
pub proof fn lemma_pull_dialogue(
    listing: Result<Seq<char>, Seq<char>>,
    line: Seq<char>,
    rest: Seq<char>,
    err: Seq<char>,
)
    requires
        !line.contains('\n'),
        line.len() > 0 ==> line.last() != '\r',
    ensures
        pull_step(Seq::empty()) == StepModel::Run(seq!["status"@, "--porcelain"@]),
        listing matches Ok(out) && trimmed(out).len() > 0 ==> pull_step(seq![listing])
            == StepModel::Done(
            Err(
                "Pull blocked: working tree has local changes. Commit/stash them first, then retry."@,
            ),
        ),
        !(listing matches Ok(out) && trimmed(out).len() > 0) ==> {
            &&& pull_step(seq![listing]) == StepModel::Run(seq!["pull"@, "--ff-only"@])
            &&& trimmed(line).len() > 0 ==> pull_step(seq![listing, Ok(line + "\n"@ + rest)])
                == StepModel::Done(Ok("Pull completed: "@ + trimmed(line)))
            &&& says(err, "not possible to fast-forward"@) || says(err, "non-fast-forward"@) || says(
                err,
                "divergent branches"@,
            ) ==> pull_step(seq![listing, Err(err)]) == StepModel::Done(
                Err(
                    "Pull requires merge/rebase (non fast-forward). Use terminal to resolve or rebase, then refresh."@,
                ),
            )
            &&& !says(err, "not possible to fast-forward"@) && !says(err, "non-fast-forward"@)
                && !says(err, "divergent branches"@) ==> pull_step(seq![listing, Err(err)])
                == StepModel::Done(Err("Pull failed: "@ + err))
        },
{
    crate::lines::lemma_line_ends(line, rest);
    assert((seq![line] + lines_of(rest))[0] == line);
    lemma_says(err, "not possible to fast-forward"@);
    lemma_says(err, "non-fast-forward"@);
    lemma_says(err, "divergent branches"@);
}

// ---------------------------------------------------------------------------------------------
// Branches
// ---------------------------------------------------------------------------------------------
/// A branch is switched to with `switch`, and with `checkout` where that fails.
pub proof fn lemma_switch_dialogue(
    branch: String,
    ok: Seq<char>,
    err: Seq<char>,
    again: Seq<char>,
    replies: Seq<Result<Seq<char>, Seq<char>>>,
)
    ensures
        ({
            let action = BranchAction::Switch(branch);
            let switched = StepModel::Done(Ok("Switched to branch: "@ + branch@));
            &&& trimmed(branch@).len() == 0 ==> branch_step(action, replies) == StepModel::Done(
                Err("Branch switch failed: branch name is required."@),
            )
            &&& trimmed(branch@).len() > 0 ==> {
                &&& branch_step(action, Seq::empty()) == StepModel::Run(seq!["switch"@, branch@])
                &&& branch_step(action, seq![Ok(ok)]) == switched
                &&& branch_step(action, seq![Err(err)]) == StepModel::Run(
                    seq!["checkout"@, branch@],
                )
                &&& branch_step(action, seq![Err(err), Ok(ok)]) == switched
                &&& branch_step(action, seq![Err(err), Err(again)]) == StepModel::Done(
                    Err("Branch switch failed: "@ + again),
                )
            }
        }),
{
}

/// A branch is created with `switch -c`, and with `checkout -b` where that fails; then its upstream
/// is set to the branch of the same name at `origin`, or else at the first remote.
pub proof fn lemma_create_dialogue(
    branch: String,
    created: Seq<Result<Seq<char>, Seq<char>>>,
    remotes: Seq<char>,
    remote: Seq<char>,
    set: Seq<char>,
    err: Seq<char>,
    again: Seq<char>,
)
    requires
        trimmed(branch@).len() > 0,
        created.len() == 1 && created[0] is Ok || created.len() == 2 && created[0] is Err
            && created[1] is Ok,
        crate::lines::filled_lines(lines_of(remotes)).contains("origin"@) ==> remote == "origin"@,
        !crate::lines::filled_lines(lines_of(remotes)).contains("origin"@)
            && crate::lines::filled_lines(lines_of(remotes)).len() > 0 ==> remote
            == crate::lines::filled_lines(lines_of(remotes))[0],
    ensures
        ({
            let action = BranchAction::Create(branch);
            let known = created.push(Ok(remotes));
            let half = known.push(Ok(set));
            let failed = StepModel::Done(
                Ok(
                    "Created and switched to branch: "@ + branch@
                        + ". Upstream auto-config failed: "@ + err,
                ),
            );
            &&& branch_step(action, Seq::empty()) == StepModel::Run(seq!["switch"@, "-c"@, branch@])
            &&& branch_step(action, seq![Err(err)]) == StepModel::Run(
                seq!["checkout"@, "-b"@, branch@],
            )
            &&& branch_step(action, seq![Err(err), Err(again)]) == StepModel::Done(
                Err("Branch creation failed: "@ + again),
            )
            &&& branch_step(action, created) == StepModel::Run(seq!["remote"@])
            &&& crate::lines::filled_lines(lines_of(remotes)).len() == 0 ==> branch_step(
                action,
                known,
            ) == StepModel::Done(
                Ok(
                    "Created and switched to branch: "@ + branch@
                        + ". No remote found, so upstream was not set."@,
                ),
            )
            &&& crate::lines::filled_lines(lines_of(remotes)).len() > 0 ==> {
                &&& branch_step(action, known) == StepModel::Run(
                    seq!["config"@, "branch."@ + branch@ + ".remote"@, remote],
                )
                &&& branch_step(action, known.push(Err(err))) == failed
                &&& branch_step(action, half) == StepModel::Run(
                    seq![
                        "config"@,
                        "branch."@ + branch@ + ".merge"@,
                        "refs/heads/"@ + branch@,
                    ],
                )
                &&& branch_step(action, half.push(Err(err))) == failed
                &&& branch_step(action, half.push(Ok(set))) == StepModel::Done(
                    Ok(
                        "Created and switched to branch: "@ + branch@
                            + " (upstream configured automatically)"@,
                    ),
                )
            }
        }),
{
    let known = created.push(Ok(remotes));
    let half = known.push(Ok(set));
    let n = created.len() as int;
    assert(known[0] == created[0]);
    assert(half[0] == created[0]);
    assert(half.push(Err(err))[0] == created[0]);
    assert(half.push(Ok(set))[0] == created[0]);
    assert(known.push(Err(err))[0] == created[0]);
    assert(known[n] == Ok::<Seq<char>, Seq<char>>(remotes));
    assert(half[n] == Ok::<Seq<char>, Seq<char>>(remotes));
    assert(half[n + 1] == Ok::<Seq<char>, Seq<char>>(set));
    assert(known.push(Err(err))[n] == Ok::<Seq<char>, Seq<char>>(remotes));
    assert(known.push(Err(err))[n + 1] == Err::<Seq<char>, Seq<char>>(err));
    assert(half.push(Err(err))[n] == Ok::<Seq<char>, Seq<char>>(remotes));
    assert(half.push(Err(err))[n + 1] == Ok::<Seq<char>, Seq<char>>(set));
    assert(half.push(Err(err))[n + 2] == Err::<Seq<char>, Seq<char>>(err));
    assert(half.push(Ok(set))[n] == Ok::<Seq<char>, Seq<char>>(remotes));
    assert(half.push(Ok(set))[n + 1] == Ok::<Seq<char>, Seq<char>>(set));
    assert(half.push(Ok(set))[n + 2] == Ok::<Seq<char>, Seq<char>>(set));
    if n == 2 {
        assert(known[1] == created[1]);
        assert(half[1] == created[1]);
        assert(known.push(Err(err))[1] == created[1]);
        assert(half.push(Err(err))[1] == created[1]);
        assert(half.push(Ok(set))[1] == created[1]);
    }
}

// ---------------------------------------------------------------------------------------------
// Push and upstream
// ---------------------------------------------------------------------------------------------
/// Whether an error says that credentials are missing or were refused.
pub open spec fn says_credentials(err: Seq<char>) -> bool {
    ||| says(err, "authentication failed"@)
    ||| says(err, "could not read username"@)
    ||| says(err, "terminal prompts disabled"@)
    ||| says(err, "http basic"@)
    ||| says(err, "access denied"@)
}

/// A push that failed for want of credentials asks for them, unless it had some; other errors are
/// told apart by what git says.
pub proof fn lemma_push_outcomes(had_credentials: bool, out: Seq<char>, err: Seq<char>)
    ensures
        ({
            let filled = crate::lines::filled_lines(lines_of(out));
            let outcome = push_outcome(had_credentials, Err(err));
            let no_upstream = says(err, "no configured push destination"@) || says(
                err,
                "has no upstream branch"@,
            );
            let rejected = says(err, "non-fast-forward"@) || says(err, "rejected"@);
            &&& filled.len() > 0 ==> push_outcome(had_credentials, Ok(out)) == PushModel::Success(
                "Push succeeded: "@ + filled[0],
            )
            &&& push_outcome(had_credentials, Ok(out)) is Success
            &&& says_credentials(err) && !had_credentials ==> outcome == PushModel::AuthRequired(
                err,
            )
            &&& says_credentials(err) && had_credentials ==> outcome == PushModel::Failure(
                "Push failed: authentication was rejected."@,
            )
            &&& !says_credentials(err) && no_upstream ==> outcome == PushModel::Failure(
                "Push failed: no upstream remote configured. Set upstream and retry."@,
            )
            &&& !says_credentials(err) && !no_upstream && rejected ==> outcome
                == PushModel::Failure(
                "Push rejected (non-fast-forward). Pull/rebase and retry push."@,
            )
            &&& !says_credentials(err) && !no_upstream && !rejected ==> outcome
                == PushModel::Failure("Push failed: "@ + err)
        }),
{
    lemma_contains_text(ascii_lower(err), "authentication failed"@);
    lemma_contains_text(ascii_lower(err), "could not read username"@);
    lemma_contains_text(ascii_lower(err), "terminal prompts disabled"@);
    lemma_contains_text(ascii_lower(err), "http basic"@);
    lemma_contains_text(ascii_lower(err), "access denied"@);
    lemma_says(err, "no configured push destination"@);
    lemma_says(err, "has no upstream branch"@);
    lemma_says(err, "non-fast-forward"@);
    lemma_says(err, "rejected"@);
}

/// An upstream needs a remote and a branch. The remote is added, or its address set, where one is
/// given; a new remote needs one. Then the branch is pushed and set up.
pub proof fn lemma_upstream_dialogue(
    options: UpstreamOptions,
    remotes: Seq<char>,
    ok: Seq<char>,
    err: Seq<char>,
    replies: Seq<Result<Seq<char>, Seq<char>>>,
    outcome: Seq<char>,
)
    ensures
        ({
            let remote = trimmed(options.remote_name@);
            let url = trimmed(options.remote_url@);
            let branch = trimmed(options.branch_name@);
            let known = crate::lines::filled_lines(lines_of(remotes)).contains(remote);
            let listed = seq![Ok::<Seq<char>, Seq<char>>(remotes)];
            let push = UpstreamModel::Push(
                seq!["--porcelain"@, "--set-upstream"@, remote, branch],
            );
            &&& remote.len() == 0 || branch.len() == 0 ==> upstream_step(options, replies)
                == UpstreamModel::Failed(
                "Upstream setup failed: remote and branch are required."@,
            )
            &&& remote.len() > 0 && branch.len() > 0 ==> {
                &&& upstream_step(options, Seq::empty()) == UpstreamModel::Run(seq!["remote"@])
                &&& url.len() == 0 && known ==> upstream_step(options, listed) == push
                &&& url.len() == 0 && !known ==> upstream_step(options, listed)
                    == UpstreamModel::Failed(
                    "Upstream setup failed: remote URL is required for a new remote."@,
                )
                &&& url.len() > 0 && known ==> upstream_step(options, listed)
                    == UpstreamModel::Run(seq!["remote"@, "set-url"@, remote, url])
                &&& url.len() > 0 && !known ==> upstream_step(options, listed)
                    == UpstreamModel::Run(seq!["remote"@, "add"@, remote, url])
                &&& url.len() > 0 ==> upstream_step(options, listed.push(Ok(ok))) == push
                &&& url.len() > 0 ==> upstream_step(options, listed.push(Err(err)))
                    == UpstreamModel::Failed(err)
            }
            &&& upstream_said(options, PushModel::Success(outcome)) == Ok::<Seq<char>, Seq<char>>(
                "Upstream configured: "@ + branch + " -> "@ + remote + "/"@ + branch,
            )
            &&& upstream_said(options, PushModel::Failure(err)) == Err::<Seq<char>, Seq<char>>(
                "Upstream setup failed: "@ + err,
            )
            &&& upstream_said(options, PushModel::AuthRequired(err)) == Err::<
                Seq<char>,
                Seq<char>,
            >(err)
        }),
{
    let listed = seq![Ok::<Seq<char>, Seq<char>>(remotes)];
    assert(listed.push(Ok(ok))[1] == Ok::<Seq<char>, Seq<char>>(ok));
    assert(listed.push(Err(err))[1] == Err::<Seq<char>, Seq<char>>(err));
}

// ---------------------------------------------------------------------------------------------
// New repositories
// ---------------------------------------------------------------------------------------------
/// The replies up to where git has set a repository up: at once with its first branch, or with the
/// branch set behind it where git does not know how.
pub open spec fn is_set_up(replies: Seq<Result<Seq<char>, Seq<char>>>) -> bool {
    ||| replies.len() == 1 && replies[0] is Ok
    ||| replies.len() == 3 && replies[0] is Err && replies[1] is Ok
}

/// A repository is set up with its first branch; then `.gitignore` is written and all files are
/// committed, each where it is wanted. A failed setup or a failed commit is told.
pub proof fn lemma_init_dialogue(
    options: InitRepoOptions,
    set_up: Seq<Result<Seq<char>, Seq<char>>>,
    ok: Seq<char>,
    err: Seq<char>,
    replies: Seq<Result<Seq<char>, Seq<char>>>,
)
    requires
        is_set_up(set_up),
    ensures
        ({
            let step = |replies: Seq<Result<Seq<char>, Seq<char>>>|
                init_step(true, false, options, replies);
            let done = InitModel::Done(
                Ok(
                    "Repository initialized successfully. Next: add remote (`git remote add origin <url>`) and push."@,
                ),
            );
            let ready = if options.create_gitignore {
                set_up.push(Ok(ok))
            } else {
                set_up
            };
            let added = ready.push(Ok(ok));
            &&& init_step(false, false, options, replies) == InitModel::Done(
                Err("Initialize failed: workspace path does not exist."@),
            )
            &&& step(Seq::empty()) == InitModel::Run(
                seq!["init"@, "--initial-branch"@, options.branch@],
            )
            &&& step(seq![Err(err)]) == InitModel::Run(seq!["init"@])
            &&& step(seq![Err(err), Err(ok)]) == InitModel::Done(Err(ok))
            &&& step(seq![Err(err), Ok(ok)]) == InitModel::Run(
                seq!["symbolic-ref"@, "HEAD"@, "refs/heads/"@ + options.branch@],
            )
            &&& options.create_gitignore ==> step(set_up) is WriteGitignore && step(
                set_up.push(Err(err)),
            ) == InitModel::Done(
                Err("Initialize failed: unable to write .gitignore ("@ + err + ")"@),
            )
            &&& !options.create_initial_commit ==> step(ready) == done
            &&& options.create_initial_commit ==> {
                &&& step(ready) == InitModel::Run(seq!["add"@, "-A"@])
                &&& step(ready.push(Err(err))) == InitModel::Done(Err(err))
                &&& step(added) == InitModel::Run(
                    seq!["commit"@, "-m"@, options.commit_message@],
                )
                &&& step(added.push(Ok(ok))) == done
                &&& !says(err, "user.name"@) && !says(err, "user.email"@) && !says(
                    err,
                    "nothing to commit"@,
                ) ==> step(added.push(Err(err))) == InitModel::Done(
                    Err("Repository initialized, but initial commit failed: "@ + err),
                )
                &&& says(err, "user.name"@) || says(err, "user.email"@) ==> step(
                    added.push(Err(err)),
                ) == InitModel::Done(
                    Err(
                        "Repository initialized, but initial commit failed. Configure Git identity with `git config user.name` and `git config user.email`, then commit again."@,
                    ),
                )
                &&& !says(err, "user.name"@) && !says(err, "user.email"@) && says(
                    err,
                    "nothing to commit"@,
                ) ==> step(added.push(Err(err))) == InitModel::Done(
                    Ok(
                        "Repository initialized. No files to commit yet; add files and create your first commit."@,
                    ),
                )
            }
        }),
{
    lemma_says(err, "user.name"@);
    lemma_says(err, "user.email"@);
    lemma_says(err, "nothing to commit"@);
    let n = set_up.len() as int;
    let yes = Ok::<Seq<char>, Seq<char>>(ok);
    let no = Err::<Seq<char>, Seq<char>>(err);
    let ready = if options.create_gitignore {
        set_up.push(yes)
    } else {
        set_up
    };
    let m = ready.len() as int;
    let added = ready.push(yes);
    assert forall|i: int| 0 <= i < n implies set_up.push(no)[i] == set_up[i] && ready[i] == set_up[i]
        && ready.push(no)[i] == set_up[i] && added[i] == set_up[i] && added.push(yes)[i]
        == set_up[i] && added.push(no)[i] == set_up[i] by {}
    assert(set_up.push(no)[0] == set_up[0] && ready[0] == set_up[0] && ready.push(no)[0]
        == set_up[0] && added[0] == set_up[0] && added.push(yes)[0] == set_up[0] && added.push(
        no,
    )[0] == set_up[0]);
    if n == 3 {
        assert(set_up.push(no)[1] == set_up[1] && ready[1] == set_up[1] && ready.push(no)[1]
            == set_up[1] && added[1] == set_up[1] && added.push(yes)[1] == set_up[1]
            && added.push(no)[1] == set_up[1]);
    }
    assert(set_up.push(no)[n] == no);
    if options.create_gitignore {
        assert(ready[n] == yes && ready.push(no)[n] == yes && added[n] == yes && added.push(yes)[n]
            == yes && added.push(no)[n] == yes);
    }
    assert(ready.push(no)[m] == no);
    assert(added[m] == yes && added.push(yes)[m] == yes && added.push(no)[m] == yes);
    assert(added.push(yes)[m + 1] == yes && added.push(no)[m + 1] == no);
}

} // verus!
