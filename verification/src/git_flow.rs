//! Git operations as dialogues with the git program.
//!
//! Each operation is a function of the replies that git has given so far: it names the next
//! command to run, or the result. A reply is the output of a command, or its error text.
use crate::git_status::{
    credentials_required, mentions, read_porcelain_entries, GitFileEntry,
};
use crate::layout_store::is_visible;
use crate::lines::{ascii_lowercase, lines, lists, nonblank_lines};
use crate::number::decimal_usize;
use crate::text::{concat, concat3, owned, same, starts_with, trim};
use vstd::prelude::*;
#[allow(unused_imports)]
use crate::git_status::{
    asks_for_credentials, count_totals, entries_of, file_models, is_porcelain, speaks_of,
    FileModel,
};
#[allow(unused_imports)]
use crate::lines::{ascii_lower, filled_lines, lines_of};
#[allow(unused_imports)]
use crate::number::decimal;
#[allow(unused_imports)]
use crate::text::{starts_with_text, trimmed};

verus! {

// ---------------------------------------------------------------------------------------------
// Replies and steps
// ---------------------------------------------------------------------------------------------
pub open spec fn reply_model(r: Result<String, String>) -> Result<Seq<char>, Seq<char>> {
    match r {
        Ok(s) => Ok(s@),
        Err(s) => Err(s@),
    }
}

pub open spec fn reply_models(
    replies: Seq<Result<String, String>>,
) -> Seq<Result<Seq<char>, Seq<char>>> {
    Seq::new(replies.len(), |i: int| reply_model(replies[i]))
}

/// What an operation does next.
#[derive(Debug)]
pub enum GitStep {
    /// Run git with these arguments, and come back with its reply.
    Run(Vec<String>),
    /// The operation is over.
    Done(Result<String, String>),
    /// A status listing cannot be read.
    Unreadable,
}

#[verifier::ext_equal]
pub ghost enum StepModel {
    Run(Seq<Seq<char>>),
    Done(Result<Seq<char>, Seq<char>>),
    Unreadable,
}

impl GitStep {
    pub open spec fn model(self) -> StepModel {
        match self {
            GitStep::Run(args) => StepModel::Run(args.deep_view()),
            GitStep::Done(r) => StepModel::Done(reply_model(r)),
            GitStep::Unreadable => StepModel::Unreadable,
        }
    }
}

fn arg(args: &mut Vec<String>, text: &str)
    ensures
        final(args).deep_view() == old(args).deep_view().push(text@),
{
    args.push(text.to_owned());
    assert(args.deep_view() =~= old(args).deep_view().push(text@));
}

pub(crate) fn args2(a: &str, b: &str) -> (args: Vec<String>)
    ensures
        args.deep_view() == seq![a@, b@],
{
    let mut args: Vec<String> = Vec::new();
    arg(&mut args, a);
    arg(&mut args, b);
    assert(args.deep_view() =~= seq![a@, b@]);
    args
}

pub(crate) fn args3(a: &str, b: &str, c: &str) -> (args: Vec<String>)
    ensures
        args.deep_view() == seq![a@, b@, c@],
{
    let mut args = args2(a, b);
    arg(&mut args, c);
    assert(args.deep_view() =~= seq![a@, b@, c@]);
    args
}

pub(crate) fn args4(a: &str, b: &str, c: &str, d: &str) -> (args: Vec<String>)
    ensures
        args.deep_view() == seq![a@, b@, c@, d@],
{
    let mut args = args3(a, b, c);
    arg(&mut args, d);
    assert(args.deep_view() =~= seq![a@, b@, c@, d@]);
    args
}

fn args5(a: &str, b: &str, c: &str, d: &str, e: &str) -> (args: Vec<String>)
    ensures
        args.deep_view() == seq![a@, b@, c@, d@, e@],
{
    let mut args = args4(a, b, c, d);
    arg(&mut args, e);
    assert(args.deep_view() =~= seq![a@, b@, c@, d@, e@]);
    args
}

fn add_all(args: &mut Vec<String>, more: &Vec<String>)
    ensures
        final(args).deep_view() == old(args).deep_view() + more.deep_view(),
{
    let ghost before = args.deep_view();
    let mut i: usize = 0;
    assert(args.deep_view() =~= before + more.deep_view().take(0));
    while i < more.len()
        invariant
            i <= more@.len(),
            args.deep_view() == before + more.deep_view().take(i as int),
        decreases more.len() - i,
    {
        arg(args, more[i].as_str());
        i += 1;
        assert(args.deep_view() =~= before + more.deep_view().take(i as int));
    }
    assert(more.deep_view().take(i as int) =~= more.deep_view());
}

/// The first line of an output, or `otherwise` where there is none; trimmed.
pub open spec fn first_line(output: Seq<char>, otherwise: Seq<char>) -> Seq<char> {
    if lines_of(output).len() > 0 {
        trimmed(lines_of(output)[0])
    } else {
        trimmed(otherwise)
    }
}

fn first_line_of(output: &str, otherwise: &str) -> (r: String)
    ensures
        r@ == first_line(output@, otherwise@),
{
    let all = lines(output);
    if all.len() > 0 {
        assert(all.deep_view()[0] == all@[0]@);
        trim(all[0].as_str())
    } else {
        trim(otherwise)
    }
}

// ---------------------------------------------------------------------------------------------
// Fetch
// ---------------------------------------------------------------------------------------------
/// What is said of a fetch.
pub open spec fn fetch_result(reply: Result<Seq<char>, Seq<char>>) -> Result<Seq<char>, Seq<char>> {
    match reply {
        Ok(out) => {
            let first = first_line(out, "Fetch completed."@);
            if first.len() == 0 {
                Ok("Fetch completed."@)
            } else {
                Ok("Fetch completed: "@ + first)
            }
        },
        Err(err) => Err("Fetch failed: "@ + err),
    }
}

pub open spec fn fetch_step(replies: Seq<Result<Seq<char>, Seq<char>>>) -> StepModel {
    if replies.len() == 0 {
        StepModel::Run(seq!["fetch"@, "--prune"@])
    } else {
        StepModel::Done(fetch_result(replies[0]))
    }
}

pub fn run_fetch(replies: &Vec<Result<String, String>>) -> (step: GitStep)
    ensures
        step.model() == fetch_step(reply_models(replies@)),
{
    if replies.len() == 0 {
        return GitStep::Run(args2("fetch", "--prune"));
    }
    assert(reply_models(replies@)[0] == reply_model(replies@[0]));
    match &replies[0] {
        Ok(out) => {
            let first = first_line_of(out.as_str(), "Fetch completed.");
            if first.as_str().is_empty() {
                GitStep::Done(Ok(owned("Fetch completed.")))
            } else {
                GitStep::Done(Ok(concat("Fetch completed: ", first.as_str())))
            }
        },
        Err(err) => GitStep::Done(Err(concat("Fetch failed: ", err.as_str()))),
    }
}

// ---------------------------------------------------------------------------------------------
// Pull
// ---------------------------------------------------------------------------------------------
/// What is said of a pull.
pub open spec fn pull_result(reply: Result<Seq<char>, Seq<char>>) -> Result<Seq<char>, Seq<char>> {
    match reply {
        Ok(out) => {
            let first = first_line(out, "Pull completed."@);
            if first.len() == 0 {
                Ok("Pull completed."@)
            } else {
                Ok("Pull completed: "@ + first)
            }
        },
        Err(err) => if speaks_of(err, "not possible to fast-forward"@) || speaks_of(
            err,
            "non-fast-forward"@,
        ) || speaks_of(err, "divergent branches"@) {
            Err(
                "Pull requires merge/rebase (non fast-forward). Use terminal to resolve or rebase, then refresh."@,
            )
        } else {
            Err("Pull failed: "@ + err)
        },
    }
}

/// Whether a status listing shows local changes; one that failed shows none.
pub open spec fn shows_changes(reply: Result<Seq<char>, Seq<char>>) -> bool {
    reply matches Ok(out) && trimmed(out).len() > 0
}

pub open spec fn pull_step(replies: Seq<Result<Seq<char>, Seq<char>>>) -> StepModel {
    if replies.len() == 0 {
        StepModel::Run(seq!["status"@, "--porcelain"@])
    } else if shows_changes(replies[0]) {
        StepModel::Done(
            Err(
                "Pull blocked: working tree has local changes. Commit/stash them first, then retry."@,
            ),
        )
    } else if replies.len() == 1 {
        StepModel::Run(seq!["pull"@, "--ff-only"@])
    } else {
        StepModel::Done(pull_result(replies[1]))
    }
}

pub fn run_pull_ff_only(replies: &Vec<Result<String, String>>) -> (step: GitStep)
    ensures
        step.model() == pull_step(reply_models(replies@)),
{
    if replies.len() == 0 {
        return GitStep::Run(args2("status", "--porcelain"));
    }
    assert(reply_models(replies@)[0] == reply_model(replies@[0]));
    let is_dirty = match &replies[0] {
        Ok(out) => is_visible(out.as_str()),
        Err(_) => false,
    };
    if is_dirty {
        return GitStep::Done(
            Err(
                owned(
                    "Pull blocked: working tree has local changes. Commit/stash them first, then retry.",
                ),
            ),
        );
    }
    if replies.len() == 1 {
        return GitStep::Run(args2("pull", "--ff-only"));
    }
    assert(reply_models(replies@)[1] == reply_model(replies@[1]));
    match &replies[1] {
        Ok(out) => {
            let first = first_line_of(out.as_str(), "Pull completed.");
            if first.as_str().is_empty() {
                GitStep::Done(Ok(owned("Pull completed.")))
            } else {
                GitStep::Done(Ok(concat("Pull completed: ", first.as_str())))
            }
        },
        Err(err) => {
            let text = err.as_str();
            if mentions(text, "not possible to fast-forward") || mentions(text, "non-fast-forward")
                || mentions(text, "divergent branches") {
                GitStep::Done(
                    Err(
                        owned(
                            "Pull requires merge/rebase (non fast-forward). Use terminal to resolve or rebase, then refresh.",
                        ),
                    ),
                )
            } else {
                GitStep::Done(Err(concat("Pull failed: ", text)))
            }
        },
    }
}

/// A working tree with local changes is never pulled into: the pull command is asked for only
/// where the status listing showed none.
pub proof fn lemma_pull_needs_clean_tree(replies: Seq<Result<Seq<char>, Seq<char>>>)
    ensures
        pull_step(replies) == StepModel::Run(seq!["pull"@, "--ff-only"@]) ==> replies.len() == 1
            && !shows_changes(replies[0]),
{
    reveal_strlit("status");
    reveal_strlit("pull");
    assert("status"@.len() == 6 && "pull"@.len() == 4);
    assert(seq!["status"@, "--porcelain"@][0].len() == 6);
    assert(seq!["pull"@, "--ff-only"@][0].len() == 4);
}

// ---------------------------------------------------------------------------------------------
// Branches
// ---------------------------------------------------------------------------------------------
#[derive(Debug)]
pub enum BranchAction {
    Switch(String),
    Create(String),
}

/// The remote that a new branch is set up for: `origin`, or else the first.
pub open spec fn preferred_remote(remotes: Seq<Seq<char>>) -> Option<Seq<char>> {
    if remotes.contains("origin"@) {
        Some("origin"@)
    } else if remotes.len() > 0 {
        Some(remotes[0])
    } else {
        None
    }
}

pub open spec fn remotes_in(reply: Result<Seq<char>, Seq<char>>) -> Seq<Seq<char>> {
    match reply {
        Ok(out) => filled_lines(lines_of(out)),
        Err(_) => Seq::empty(),
    }
}

pub open spec fn upstream_failed(branch: Seq<char>, err: Seq<char>) -> Seq<char> {
    "Created and switched to branch: "@ + branch + ". Upstream auto-config failed: "@ + err
}

pub open spec fn switch_step(
    branch: Seq<char>,
    replies: Seq<Result<Seq<char>, Seq<char>>>,
) -> StepModel {
    if trimmed(branch).len() == 0 {
        StepModel::Done(Err("Branch switch failed: branch name is required."@))
    } else if replies.len() == 0 {
        StepModel::Run(seq!["switch"@, branch])
    } else if replies[0] is Ok {
        StepModel::Done(Ok("Switched to branch: "@ + branch))
    } else if replies.len() == 1 {
        StepModel::Run(seq!["checkout"@, branch])
    } else {
        match replies[1] {
            Ok(_) => StepModel::Done(Ok("Switched to branch: "@ + branch)),
            Err(err) => StepModel::Done(Err("Branch switch failed: "@ + err)),
        }
    }
}

/// Once a branch was created, its upstream is configured. `at` replies came before.
pub open spec fn created_step(
    branch: Seq<char>,
    replies: Seq<Result<Seq<char>, Seq<char>>>,
    at: int,
) -> StepModel {
    if replies.len() <= at {
        StepModel::Run(seq!["remote"@])
    } else {
        match preferred_remote(remotes_in(replies[at])) {
            None => StepModel::Done(
                Ok(
                    "Created and switched to branch: "@ + branch
                        + ". No remote found, so upstream was not set."@,
                ),
            ),
            Some(remote) => if replies.len() <= at + 1 {
                StepModel::Run(seq!["config"@, "branch."@ + branch + ".remote"@, remote])
            } else {
                match replies[at + 1] {
                    Err(err) => StepModel::Done(Ok(upstream_failed(branch, err))),
                    Ok(_) => if replies.len() <= at + 2 {
                        StepModel::Run(
                            seq![
                                "config"@,
                                "branch."@ + branch + ".merge"@,
                                "refs/heads/"@ + branch,
                            ],
                        )
                    } else {
                        match replies[at + 2] {
                            Err(err) => StepModel::Done(Ok(upstream_failed(branch, err))),
                            Ok(_) => StepModel::Done(
                                Ok(
                                    "Created and switched to branch: "@ + branch
                                        + " (upstream configured automatically)"@,
                                ),
                            ),
                        }
                    },
                }
            },
        }
    }
}

pub open spec fn create_step(
    branch: Seq<char>,
    replies: Seq<Result<Seq<char>, Seq<char>>>,
) -> StepModel {
    if trimmed(branch).len() == 0 {
        StepModel::Done(Err("Branch creation failed: branch name is required."@))
    } else if replies.len() == 0 {
        StepModel::Run(seq!["switch"@, "-c"@, branch])
    } else if replies[0] is Ok {
        created_step(branch, replies, 1)
    } else if replies.len() == 1 {
        StepModel::Run(seq!["checkout"@, "-b"@, branch])
    } else {
        match replies[1] {
            Err(err) => StepModel::Done(Err("Branch creation failed: "@ + err)),
            Ok(_) => created_step(branch, replies, 2),
        }
    }
}

pub open spec fn branch_step(
    action: BranchAction,
    replies: Seq<Result<Seq<char>, Seq<char>>>,
) -> StepModel {
    match action {
        BranchAction::Switch(branch) => switch_step(branch@, replies),
        BranchAction::Create(branch) => create_step(branch@, replies),
    }
}

fn parse_remotes(reply: &Result<String, String>) -> (remotes: Vec<String>)
    ensures
        remotes.deep_view() == remotes_in(reply_model(*reply)),
{
    match reply {
        Ok(out) => nonblank_lines(out.as_str()),
        Err(_) => {
            let none: Vec<String> = Vec::new();
            assert(none.deep_view() =~= Seq::empty());
            none
        },
    }
}

fn after_create(branch: &str, replies: &Vec<Result<String, String>>, at: usize) -> (step: GitStep)
    requires
        at <= 2,
    ensures
        step.model() == created_step(branch@, reply_models(replies@), at as int),
{
    if replies.len() <= at {
        let mut args: Vec<String> = Vec::new();
        arg(&mut args, "remote");
        assert(args.deep_view() =~= seq!["remote"@]);
        return GitStep::Run(args);
    }
    assert(reply_models(replies@)[at as int] == reply_model(replies@[at as int]));
    let remotes = parse_remotes(&replies[at]);
    let remote = if lists(&remotes, "origin") {
        owned("origin")
    } else if remotes.len() > 0 {
        assert(remotes.deep_view()[0] == remotes@[0]@);
        owned(remotes[0].as_str())
    } else {
        return GitStep::Done(
            Ok(
                concat3(
                    "Created and switched to branch: ",
                    branch,
                    ". No remote found, so upstream was not set.",
                ),
            ),
        );
    };
    if replies.len() <= at + 1 {
        let key = concat3("branch.", branch, ".remote");
        return GitStep::Run(args3("config", key.as_str(), remote.as_str()));
    }
    assert(reply_models(replies@)[at + 1] == reply_model(replies@[at + 1]));
    match &replies[at + 1] {
        Err(err) => {
            let head = concat3(
                "Created and switched to branch: ",
                branch,
                ". Upstream auto-config failed: ",
            );
            return GitStep::Done(Ok(concat(head.as_str(), err.as_str())));
        },
        Ok(_) => {},
    }
    if replies.len() <= at + 2 {
        let key = concat3("branch.", branch, ".merge");
        let target = concat("refs/heads/", branch);
        return GitStep::Run(args3("config", key.as_str(), target.as_str()));
    }
    assert(reply_models(replies@)[at + 2] == reply_model(replies@[at + 2]));
    match &replies[at + 2] {
        Err(err) => {
            let head = concat3(
                "Created and switched to branch: ",
                branch,
                ". Upstream auto-config failed: ",
            );
            GitStep::Done(Ok(concat(head.as_str(), err.as_str())))
        },
        Ok(_) => GitStep::Done(
            Ok(
                concat3(
                    "Created and switched to branch: ",
                    branch,
                    " (upstream configured automatically)",
                ),
            ),
        ),
    }
}

pub fn run_branch_action(action: &BranchAction, replies: &Vec<Result<String, String>>) -> (step:
    GitStep)
    ensures
        step.model() == branch_step(*action, reply_models(replies@)),
{
    match action {
        BranchAction::Switch(branch) => {
            let name = branch.as_str();
            if !is_visible(name) {
                return GitStep::Done(Err(owned("Branch switch failed: branch name is required.")));
            }
            if replies.len() == 0 {
                return GitStep::Run(args2("switch", name));
            }
            assert(reply_models(replies@)[0] == reply_model(replies@[0]));
            match &replies[0] {
                Ok(_) => return GitStep::Done(Ok(concat("Switched to branch: ", name))),
                Err(_) => {},
            }
            if replies.len() == 1 {
                return GitStep::Run(args2("checkout", name));
            }
            assert(reply_models(replies@)[1] == reply_model(replies@[1]));
            match &replies[1] {
                Ok(_) => GitStep::Done(Ok(concat("Switched to branch: ", name))),
                Err(err) => GitStep::Done(Err(concat("Branch switch failed: ", err.as_str()))),
            }
        },
        BranchAction::Create(branch) => {
            let name = branch.as_str();
            if !is_visible(name) {
                return GitStep::Done(
                    Err(owned("Branch creation failed: branch name is required.")),
                );
            }
            if replies.len() == 0 {
                return GitStep::Run(args3("switch", "-c", name));
            }
            assert(reply_models(replies@)[0] == reply_model(replies@[0]));
            match &replies[0] {
                Ok(_) => return after_create(name, replies, 1),
                Err(_) => {},
            }
            if replies.len() == 1 {
                return GitStep::Run(args3("checkout", "-b", name));
            }
            assert(reply_models(replies@)[1] == reply_model(replies@[1]));
            match &replies[1] {
                Err(err) => GitStep::Done(Err(concat("Branch creation failed: ", err.as_str()))),
                Ok(_) => after_create(name, replies, 2),
            }
        },
    }
}

/// A branch operation asks git for at most five commands.
pub proof fn lemma_branch_action_ends(
    action: BranchAction,
    replies: Seq<Result<Seq<char>, Seq<char>>>,
)
    requires
        replies.len() >= 5,
    ensures
        branch_step(action, replies) is Done,
{
}

// ---------------------------------------------------------------------------------------------
// Push
// ---------------------------------------------------------------------------------------------
#[derive(Debug)]
pub enum PushOutcome {
    Success(String),
    AuthRequired(String),
    Failure(String),
}

#[verifier::ext_equal]
pub ghost enum PushModel {
    Success(Seq<char>),
    AuthRequired(Seq<char>),
    Failure(Seq<char>),
}

impl PushOutcome {
    pub open spec fn model(self) -> PushModel {
        match self {
            PushOutcome::Success(s) => PushModel::Success(s@),
            PushOutcome::AuthRequired(s) => PushModel::AuthRequired(s@),
            PushOutcome::Failure(s) => PushModel::Failure(s@),
        }
    }
}

/// The first line that is not blank, trimmed; or `otherwise`.
pub open spec fn first_filled(output: Seq<char>, otherwise: Seq<char>) -> Seq<char> {
    if filled_lines(lines_of(output)).len() > 0 {
        filled_lines(lines_of(output))[0]
    } else {
        trimmed(otherwise)
    }
}

/// What came of a push.
pub open spec fn push_outcome(
    had_credentials: bool,
    reply: Result<Seq<char>, Seq<char>>,
) -> PushModel {
    match reply {
        Ok(out) => PushModel::Success("Push succeeded: "@ + first_filled(out, "Push completed."@)),
        Err(err) => if asks_for_credentials(ascii_lower(err)) {
            if had_credentials {
                PushModel::Failure("Push failed: authentication was rejected."@)
            } else {
                PushModel::AuthRequired(err)
            }
        } else if speaks_of(err, "no configured push destination"@) || speaks_of(
            err,
            "has no upstream branch"@,
        ) {
            PushModel::Failure("Push failed: no upstream remote configured. Set upstream and retry."@)
        } else if speaks_of(err, "non-fast-forward"@) || speaks_of(err, "rejected"@) {
            PushModel::Failure("Push rejected (non-fast-forward). Pull/rebase and retry push."@)
        } else {
            PushModel::Failure("Push failed: "@ + err)
        },
    }
}

pub fn push_outcome_of(had_credentials: bool, reply: &Result<String, String>) -> (r: PushOutcome)
    ensures
        r.model() == push_outcome(had_credentials, reply_model(*reply)),
{
    match reply {
        Ok(out) => {
            let filled = nonblank_lines(out.as_str());
            let summary = if filled.len() > 0 {
                assert(filled.deep_view()[0] == filled@[0]@);
                owned(filled[0].as_str())
            } else {
                trim("Push completed.")
            };
            PushOutcome::Success(concat("Push succeeded: ", summary.as_str()))
        },
        Err(err) => {
            let text = err.as_str();
            let lower = ascii_lowercase(text);
            if credentials_required(lower.as_str()) {
                if !had_credentials {
                    return PushOutcome::AuthRequired(owned(text));
                }
                return PushOutcome::Failure(owned("Push failed: authentication was rejected."));
            }
            if mentions(text, "no configured push destination") || mentions(
                text,
                "has no upstream branch",
            ) {
                return PushOutcome::Failure(
                    owned("Push failed: no upstream remote configured. Set upstream and retry."),
                );
            }
            if mentions(text, "non-fast-forward") || mentions(text, "rejected") {
                return PushOutcome::Failure(
                    owned("Push rejected (non-fast-forward). Pull/rebase and retry push."),
                );
            }
            PushOutcome::Failure(concat("Push failed: ", text))
        },
    }
}

/// The arguments of a push.
pub fn push_args(options: &Vec<String>) -> (args: Vec<String>)
    ensures
        args.deep_view() == seq!["push"@] + options.deep_view(),
{
    let mut args: Vec<String> = Vec::new();
    arg(&mut args, "push");
    assert(args.deep_view() =~= seq!["push"@]);
    add_all(&mut args, options);
    args
}

/// What answers the questions that git asks during a push.
#[derive(Debug)]
pub struct PushAnswers {
    /// The program that git asks.
    pub askpass: String,
    pub username: String,
    pub password: String,
}

/// The variables that keep git from asking at the terminal.
pub open spec fn silent_variables() -> Seq<(Seq<char>, Seq<char>)> {
    seq![
        ("GIT_TERMINAL_PROMPT"@, "0"@),
        ("GIT_ASKPASS"@, "/bin/false"@),
        ("SSH_ASKPASS"@, "/bin/false"@),
        ("GCM_INTERACTIVE"@, "never"@),
    ]
}

/// The environment of a push; where a variable is named twice, the second value counts.
pub open spec fn push_variables(answers: Option<PushAnswers>) -> Seq<(Seq<char>, Seq<char>)> {
    match answers {
        Some(a) => silent_variables() + seq![
            ("GIT_ASKPASS"@, a.askpass@),
            ("GIT_USERNAME"@, a.username@),
            ("GIT_PASSWORD"@, a.password@),
        ],
        None => silent_variables(),
    }
}

pub open spec fn variable_models(list: Seq<(String, String)>) -> Seq<(Seq<char>, Seq<char>)> {
    Seq::new(list.len(), |i: int| (list[i].0@, list[i].1@))
}

fn set_variable(list: &mut Vec<(String, String)>, name: &str, value: &str)
    ensures
        variable_models(final(list)@) == variable_models(old(list)@).push((name@, value@)),
{
    list.push((owned(name), owned(value)));
    assert(variable_models(list@) =~= variable_models(old(list)@).push((name@, value@)));
}

/// The environment of a push, with what answers git where there are credentials.
pub fn push_environment(answers: Option<&PushAnswers>) -> (list: Vec<(String, String)>)
    ensures
        variable_models(list@) == push_variables(
            match answers {
                Some(a) => Some(*a),
                None => None,
            },
        ),
{
    let mut list: Vec<(String, String)> = Vec::new();
    assert(variable_models(list@) =~= Seq::empty());
    set_variable(&mut list, "GIT_TERMINAL_PROMPT", "0");
    set_variable(&mut list, "GIT_ASKPASS", "/bin/false");
    set_variable(&mut list, "SSH_ASKPASS", "/bin/false");
    set_variable(&mut list, "GCM_INTERACTIVE", "never");
    assert(variable_models(list@) =~= silent_variables());
    match answers {
        Some(a) => {
            set_variable(&mut list, "GIT_ASKPASS", a.askpass.as_str());
            set_variable(&mut list, "GIT_USERNAME", a.username.as_str());
            set_variable(&mut list, "GIT_PASSWORD", a.password.as_str());
            assert(variable_models(list@) =~= push_variables(Some(*a)));
        },
        None => {},
    }
    list
}

/// Credentials are asked for only where none were given: a push that had some ends in success or
/// failure.
pub proof fn lemma_credentials_asked_once(reply: Result<Seq<char>, Seq<char>>)
    ensures
        push_outcome(true, reply) !is AuthRequired,
        push_outcome(false, reply) is Success <==> push_outcome(true, reply) is Success,
{
}

// ---------------------------------------------------------------------------------------------
// Upstream
// ---------------------------------------------------------------------------------------------
pub struct UpstreamOptions {
    pub remote_name: String,
    pub remote_url: String,
    pub branch_name: String,
}

/// What the setup of an upstream does next.
#[derive(Debug)]
pub enum UpstreamStep {
    Run(Vec<String>),
    /// Push with these options, then see [`upstream_result`].
    Push(Vec<String>),
    Failed(String),
}

#[verifier::ext_equal]
pub ghost enum UpstreamModel {
    Run(Seq<Seq<char>>),
    Push(Seq<Seq<char>>),
    Failed(Seq<char>),
}

impl UpstreamStep {
    pub open spec fn model(self) -> UpstreamModel {
        match self {
            UpstreamStep::Run(args) => UpstreamModel::Run(args.deep_view()),
            UpstreamStep::Push(args) => UpstreamModel::Push(args.deep_view()),
            UpstreamStep::Failed(text) => UpstreamModel::Failed(text@),
        }
    }
}

pub open spec fn upstream_push(remote: Seq<char>, branch: Seq<char>) -> UpstreamModel {
    UpstreamModel::Push(seq!["--porcelain"@, "--set-upstream"@, remote, branch])
}

pub open spec fn upstream_step(
    options: UpstreamOptions,
    replies: Seq<Result<Seq<char>, Seq<char>>>,
) -> UpstreamModel {
    let remote = trimmed(options.remote_name@);
    let url = trimmed(options.remote_url@);
    let branch = trimmed(options.branch_name@);
    if remote.len() == 0 || branch.len() == 0 {
        UpstreamModel::Failed("Upstream setup failed: remote and branch are required."@)
    } else if replies.len() == 0 {
        UpstreamModel::Run(seq!["remote"@])
    } else {
        let known = remotes_in(replies[0]).contains(remote);
        if url.len() == 0 {
            if known {
                upstream_push(remote, branch)
            } else {
                UpstreamModel::Failed(
                    "Upstream setup failed: remote URL is required for a new remote."@,
                )
            }
        } else if replies.len() == 1 {
            UpstreamModel::Run(
                seq![
                    "remote"@,
                    if known {
                        "set-url"@
                    } else {
                        "add"@
                    },
                    remote,
                    url,
                ],
            )
        } else {
            match replies[1] {
                Err(err) => UpstreamModel::Failed(err),
                Ok(_) => upstream_push(remote, branch),
            }
        }
    }
}

pub fn run_configure_upstream(
    options: &UpstreamOptions,
    replies: &Vec<Result<String, String>>,
) -> (step: UpstreamStep)
    ensures
        step.model() == upstream_step(*options, reply_models(replies@)),
{
    let remote = trim(options.remote_name.as_str());
    let url = trim(options.remote_url.as_str());
    let branch = trim(options.branch_name.as_str());
    if remote.as_str().is_empty() || branch.as_str().is_empty() {
        return UpstreamStep::Failed(
            owned("Upstream setup failed: remote and branch are required."),
        );
    }
    if replies.len() == 0 {
        let mut args: Vec<String> = Vec::new();
        arg(&mut args, "remote");
        assert(args.deep_view() =~= seq!["remote"@]);
        return UpstreamStep::Run(args);
    }
    assert(reply_models(replies@)[0] == reply_model(replies@[0]));
    let remotes = parse_remotes(&replies[0]);
    let known = lists(&remotes, remote.as_str());
    if url.as_str().is_empty() {
        if !known {
            return UpstreamStep::Failed(
                owned("Upstream setup failed: remote URL is required for a new remote."),
            );
        }
    } else {
        if replies.len() == 1 {
            let verb = if known {
                "set-url"
            } else {
                "add"
            };
            return UpstreamStep::Run(args4("remote", verb, remote.as_str(), url.as_str()));
        }
        assert(reply_models(replies@)[1] == reply_model(replies@[1]));
        match &replies[1] {
            Err(err) => return UpstreamStep::Failed(owned(err.as_str())),
            Ok(_) => {},
        }
    }
    UpstreamStep::Push(args4("--porcelain", "--set-upstream", remote.as_str(), branch.as_str()))
}

/// What is said of the setup of an upstream once it was pushed.
pub open spec fn upstream_said(
    options: UpstreamOptions,
    outcome: PushModel,
) -> Result<Seq<char>, Seq<char>> {
    let remote = trimmed(options.remote_name@);
    let branch = trimmed(options.branch_name@);
    match outcome {
        PushModel::Success(_) => Ok(
            "Upstream configured: "@ + branch + " -> "@ + remote + "/"@ + branch,
        ),
        PushModel::AuthRequired(err) => Err(err),
        PushModel::Failure(err) => Err("Upstream setup failed: "@ + err),
    }
}

pub fn upstream_result(options: &UpstreamOptions, outcome: &PushOutcome) -> (r: Result<
    String,
    String,
>)
    ensures
        reply_model(r) == upstream_said(*options, outcome.model()),
{
    match outcome {
        PushOutcome::Success(_) => {
            let remote = trim(options.remote_name.as_str());
            let branch = trim(options.branch_name.as_str());
            let mut text = concat3("Upstream configured: ", branch.as_str(), " -> ");
            text.append(remote.as_str());
            text.append("/");
            text.append(branch.as_str());
            Ok(text)
        },
        PushOutcome::AuthRequired(err) => Err(owned(err.as_str())),
        PushOutcome::Failure(err) => Err(concat("Upstream setup failed: ", err.as_str())),
    }
}

// ---------------------------------------------------------------------------------------------
// Commit
// ---------------------------------------------------------------------------------------------
pub open spec fn status_args(paths: Seq<Seq<char>>) -> Seq<Seq<char>> {
    seq!["status"@, "--porcelain=v1"@, "--untracked-files=all"@, "--"@] + paths
}

pub open spec fn unstage_args(path: Seq<char>) -> Seq<Seq<char>> {
    seq!["rm"@, "--cached"@, "--ignore-unmatch"@, "--"@, path]
}

/// The paths that are among the changed files.
pub open spec fn active_paths(selected: Seq<Seq<char>>, files: Seq<FileModel>) -> Seq<Seq<char>>
    decreases selected.len(),
{
    if selected.len() == 0 {
        Seq::empty()
    } else {
        let head = active_paths(selected.drop_last(), files);
        if exists|i: int| 0 <= i < files.len() && (#[trigger] files[i]).path == selected.last() {
            head.push(selected.last())
        } else {
            head
        }
    }
}

/// Whether the first line of a status listing shows something staged.
pub open spec fn first_is_staged(status: Seq<char>) -> bool {
    lines_of(status).len() > 0 && lines_of(status)[0].len() > 0 && lines_of(status)[0][0] != ' '
}

pub open spec fn some_deleted(all: Seq<Seq<char>>) -> bool {
    exists|i: int| 0 <= i < all.len() && starts_with_text(#[trigger] all[i], " D"@)
}

/// How far the staging of a path has come.
#[verifier::ext_equal]
pub ghost enum StageModel {
    Run(Seq<Seq<char>>),
    Failed(Seq<char>),
    /// Whether something was staged, and the number of replies so far.
    Done(bool, int),
}

/// From the status listing that shows what came of adding a path. `at` replies came before it.
pub open spec fn stage_checked(
    path: Seq<char>,
    replies: Seq<Result<Seq<char>, Seq<char>>>,
    at: int,
) -> StageModel {
    if replies.len() <= at {
        StageModel::Run(status_args(seq![path]))
    } else {
        match replies[at] {
            Err(err) => StageModel::Failed(err),
            Ok(status) => if trimmed(status).len() == 0 {
                StageModel::Done(false, at + 1)
            } else if first_is_staged(status) || !some_deleted(lines_of(status)) {
                StageModel::Done(first_is_staged(status), at + 1)
            } else if replies.len() <= at + 1 {
                StageModel::Run(unstage_args(path))
            } else if replies.len() <= at + 2 {
                StageModel::Run(status_args(seq![path]))
            } else {
                match replies[at + 2] {
                    Err(err) => StageModel::Failed(err),
                    Ok(after) => StageModel::Done(first_is_staged(after), at + 3),
                }
            },
        }
    }
}

/// The staging of a path: it is added, or taken out of the index where it is gone. `at` replies
/// came before.
pub open spec fn stage_step(
    path: Seq<char>,
    replies: Seq<Result<Seq<char>, Seq<char>>>,
    at: int,
) -> StageModel {
    if replies.len() <= at {
        StageModel::Run(seq!["add"@, "--"@, path])
    } else {
        match replies[at] {
            Ok(_) => stage_checked(path, replies, at + 1),
            Err(err) => if !speaks_of(err, "did not match any files"@) {
                StageModel::Failed(err)
            } else if replies.len() <= at + 1 {
                StageModel::Run(unstage_args(path))
            } else {
                stage_checked(path, replies, at + 2)
            },
        }
    }
}

#[verifier::ext_equal]
pub ghost enum StageAllModel {
    Run(Seq<Seq<char>>),
    Failed(Seq<char>),
    /// The paths that were staged, and the number of replies so far.
    Done(Seq<Seq<char>>, int),
}

/// The staging of all paths, one after the other. The first reply came before.
pub open spec fn stage_all(
    paths: Seq<Seq<char>>,
    replies: Seq<Result<Seq<char>, Seq<char>>>,
) -> StageAllModel
    decreases paths.len(),
{
    if paths.len() == 0 {
        StageAllModel::Done(Seq::empty(), 1)
    } else {
        match stage_all(paths.drop_last(), replies) {
            StageAllModel::Done(staged, at) => {
                let path = paths.last();
                match stage_step(path, replies, at) {
                    StageModel::Run(args) => StageAllModel::Run(args),
                    StageModel::Failed(err) => StageAllModel::Failed(
                        "Commit failed while staging `"@ + path + "`: "@ + err,
                    ),
                    StageModel::Done(done, next) => StageAllModel::Done(
                        if done {
                            staged.push(path)
                        } else {
                            staged
                        },
                        next,
                    ),
                }
            },
            other => other,
        }
    }
}

/// What is said of a commit of `staged` paths out of `selected` ones.
pub open spec fn commit_result(
    reply: Result<Seq<char>, Seq<char>>,
    selected: int,
    staged: int,
) -> Result<Seq<char>, Seq<char>> {
    match reply {
        Ok(out) => {
            let said = "Commit succeeded: "@ + first_line(out, "Commit created."@);
            if selected > staged {
                Ok(
                    said + " (ignored "@ + decimal((selected - staged) as nat)
                        + " stale selection(s))."@,
                )
            } else {
                Ok(said)
            }
        },
        Err(err) => if speaks_of(err, "nothing to commit"@) {
            Err("Nothing to commit for selected files."@)
        } else if speaks_of(err, "author identity unknown"@) || speaks_of(
            err,
            "please tell me who you are"@,
        ) || speaks_of(err, "unable to auto-detect email address"@) {
            Err(
                "Commit failed: Git identity is not configured. Set `git config user.name \"Your Name\"` and `git config user.email \"you@example.com\"`, then retry."@,
            )
        } else if speaks_of(err, "index.lock"@) {
            Err(
                "Commit failed: index lock present. Retry after existing Git operation completes."@,
            )
        } else if speaks_of(err, "conflict"@) {
            Err("Commit failed due to merge conflicts in selected files."@)
        } else {
            Err("Commit failed: "@ + err)
        },
    }
}

pub open spec fn commit_step(
    selected: Seq<Seq<char>>,
    message: Seq<char>,
    replies: Seq<Result<Seq<char>, Seq<char>>>,
) -> StepModel {
    if selected.len() == 0 {
        StepModel::Done(Err("Select at least one file to commit."@))
    } else if replies.len() == 0 {
        StepModel::Run(status_args(selected))
    } else {
        match replies[0] {
            Err(err) => StepModel::Done(Err(err)),
            Ok(status) => if !is_porcelain(lines_of(status)) {
                StepModel::Unreadable
            } else {
                let active = active_paths(selected, entries_of(lines_of(status)));
                if active.len() == 0 {
                    StepModel::Done(
                        Err(
                            "Selected files no longer have changes. Refresh Git status and try again."@,
                        ),
                    )
                } else {
                    match stage_all(active, replies) {
                        StageAllModel::Run(args) => StepModel::Run(args),
                        StageAllModel::Failed(err) => StepModel::Done(Err(err)),
                        StageAllModel::Done(staged, at) => if staged.len() == 0 {
                            StepModel::Done(
                                Err(
                                    "Selected files no longer match repository paths. Refresh Git status and try again."@,
                                ),
                            )
                        } else if replies.len() <= at {
                            StepModel::Run(seq!["commit"@, "-m"@, message, "--"@] + staged)
                        } else {
                            StepModel::Done(
                                commit_result(
                                    replies[at],
                                    selected.len() as int,
                                    staged.len() as int,
                                ),
                            )
                        },
                    }
                }
            },
        }
    }
}

fn status_args_for(paths: &Vec<String>) -> (args: Vec<String>)
    ensures
        args.deep_view() == status_args(paths.deep_view()),
{
    let mut args = args4("status", "--porcelain=v1", "--untracked-files=all", "--");
    add_all(&mut args, paths);
    args
}

fn status_args_of(path: &str) -> (args: Vec<String>)
    ensures
        args.deep_view() == status_args(seq![path@]),
{
    let mut args = args4("status", "--porcelain=v1", "--untracked-files=all", "--");
    arg(&mut args, path);
    assert(args.deep_view() =~= status_args(seq![path@]));
    args
}

fn keep_active(selected: &Vec<String>, files: &Vec<GitFileEntry>) -> (active: Vec<String>)
    ensures
        active.deep_view() == active_paths(selected.deep_view(), file_models(files@)),
{
    let ghost texts = selected.deep_view();
    let ghost models = file_models(files@);
    let mut active: Vec<String> = Vec::new();
    let mut i: usize = 0;
    assert(texts.take(0) =~= Seq::empty());
    assert(active.deep_view() =~= Seq::empty());
    while i < selected.len()
        invariant
            i <= selected@.len(),
            texts == selected.deep_view(),
            models == file_models(files@),
            active.deep_view() == active_paths(texts.take(i as int), models),
        decreases selected.len() - i,
    {
        assert(texts.take(i + 1).drop_last() =~= texts.take(i as int));
        assert(texts.take(i + 1).last() == selected@[i as int]@);
        let path = selected[i].as_str();
        let mut found = false;
        let mut k: usize = 0;
        while k < files.len()
            invariant
                k <= files@.len(),
                models == file_models(files@),
                found <==> exists|j: int|
                    0 <= j < k && 0 <= j < models.len() && (#[trigger] models[j]).path == path@,
            decreases files.len() - k,
        {
            assert(models[k as int].path == files@[k as int].path@);
            if same(files[k].path.as_str(), path) {
                found = true;
            }
            k += 1;
        }
        if found {
            let ghost before = active.deep_view();
            active.push(owned(path));
            assert(active.deep_view() =~= before.push(path@));
        }
        i += 1;
    }
    assert(texts.take(i as int) =~= texts);
    active
}

fn starts_staged(status: &str) -> (r: bool)
    ensures
        r == first_is_staged(status@),
{
    let all = lines(status);
    if all.len() == 0 {
        return false;
    }
    assert(all.deep_view()[0] == all@[0]@);
    let chars = crate::text::chars_of(all[0].as_str());
    chars.len() > 0 && chars[0] != ' '
}

fn has_deleted(status: &str) -> (r: bool)
    ensures
        r == some_deleted(lines_of(status@)),
{
    let all = lines(status);
    let ghost texts = all.deep_view();
    let mut i: usize = 0;
    while i < all.len()
        invariant
            i <= all@.len(),
            texts == all.deep_view(),
            texts == lines_of(status@),
            forall|k: int| 0 <= k < i ==> !starts_with_text(#[trigger] texts[k], " D"@),
        decreases all.len() - i,
    {
        assert(texts[i as int] == all@[i as int]@);
        if starts_with(all[i].as_str(), " D") {
            return true;
        }
        i += 1;
    }
    false
}

enum Staging {
    Run(Vec<String>),
    Failed(String),
    Done(bool, usize),
}

impl Staging {
    spec fn model(self) -> StageModel {
        match self {
            Staging::Run(args) => StageModel::Run(args.deep_view()),
            Staging::Failed(err) => StageModel::Failed(err@),
            Staging::Done(done, at) => StageModel::Done(done, at as int),
        }
    }
}

fn check_staged(path: &str, replies: &Vec<Result<String, String>>, at: usize) -> (s: Staging)
    requires
        at <= replies@.len() + 1,
    ensures
        s.model() == stage_checked(path@, reply_models(replies@), at as int),
        s matches Staging::Done(_, n) ==> n <= replies@.len(),
{
    if replies.len() <= at {
        return Staging::Run(status_args_of(path));
    }
    assert(reply_models(replies@)[at as int] == reply_model(replies@[at as int]));
    match &replies[at] {
        Err(err) => Staging::Failed(owned(err.as_str())),
        Ok(status) => {
            if !is_visible(status.as_str()) {
                return Staging::Done(false, at + 1);
            }
            let staged = starts_staged(status.as_str());
            if staged || !has_deleted(status.as_str()) {
                return Staging::Done(staged, at + 1);
            }
            if replies.len() - at <= 1 {
                return Staging::Run(args5("rm", "--cached", "--ignore-unmatch", "--", path));
            }
            if replies.len() - at <= 2 {
                return Staging::Run(status_args_of(path));
            }
            assert(reply_models(replies@)[at + 2] == reply_model(replies@[at + 2]));
            match &replies[at + 2] {
                Err(err) => Staging::Failed(owned(err.as_str())),
                Ok(after) => Staging::Done(starts_staged(after.as_str()), at + 3),
            }
        },
    }
}

fn stage_path_for_commit(path: &str, replies: &Vec<Result<String, String>>, at: usize) -> (s:
    Staging)
    requires
        at <= replies@.len(),
    ensures
        s.model() == stage_step(path@, reply_models(replies@), at as int),
        s matches Staging::Done(_, n) ==> n <= replies@.len(),
{
    if replies.len() <= at {
        return Staging::Run(args3("add", "--", path));
    }
    assert(reply_models(replies@)[at as int] == reply_model(replies@[at as int]));
    match &replies[at] {
        Ok(_) => check_staged(path, replies, at + 1),
        Err(err) => {
            if !mentions(err.as_str(), "did not match any files") {
                return Staging::Failed(owned(err.as_str()));
            }
            if replies.len() - at <= 1 {
                return Staging::Run(args5("rm", "--cached", "--ignore-unmatch", "--", path));
            }
            check_staged(path, replies, at + 2)
        },
    }
}

proof fn lemma_stage_all_prefix(
    paths: Seq<Seq<char>>,
    replies: Seq<Result<Seq<char>, Seq<char>>>,
    k: int,
)
    requires
        0 <= k <= paths.len(),
        stage_all(paths.take(k), replies) !is Done,
    ensures
        stage_all(paths, replies) == stage_all(paths.take(k), replies),
    decreases paths.len() - k,
{
    if k == paths.len() {
        assert(paths.take(k) =~= paths);
    } else {
        assert(paths.take(k + 1).drop_last() =~= paths.take(k));
        lemma_stage_all_prefix(paths, replies, k + 1);
    }
}

enum StagingAll {
    Step(GitStep),
    Done(Vec<String>, usize),
}

fn stage_active(active: &Vec<String>, replies: &Vec<Result<String, String>>) -> (r: StagingAll)
    requires
        replies@.len() >= 1,
    ensures
        match r {
            StagingAll::Step(step) => match stage_all(active.deep_view(), reply_models(replies@)) {
                StageAllModel::Run(args) => step.model() == StepModel::Run(args),
                StageAllModel::Failed(err) => step.model() == StepModel::Done(Err(err)),
                StageAllModel::Done(_, _) => false,
            },
            StagingAll::Done(staged, at) => stage_all(active.deep_view(), reply_models(replies@))
                == StageAllModel::Done(staged.deep_view(), at as int) && at <= replies@.len(),
        },
{
    let ghost texts = active.deep_view();
    let ghost models = reply_models(replies@);
    let mut staged: Vec<String> = Vec::new();
    let mut at: usize = 1;
    let mut i: usize = 0;
    assert(texts.take(0) =~= Seq::empty());
    assert(staged.deep_view() =~= Seq::empty());
    while i < active.len()
        invariant
            i <= active@.len(),
            at <= replies@.len(),
            texts == active.deep_view(),
            models == reply_models(replies@),
            stage_all(texts.take(i as int), models) == StageAllModel::Done(
                staged.deep_view(),
                at as int,
            ),
        decreases active.len() - i,
    {
        assert(texts.take(i + 1).drop_last() =~= texts.take(i as int));
        assert(texts.take(i + 1).last() == active@[i as int]@);
        let path = active[i].as_str();
        match stage_path_for_commit(path, replies, at) {
            Staging::Run(args) => {
                proof {
                    lemma_stage_all_prefix(texts, models, i + 1);
                }
                return StagingAll::Step(GitStep::Run(args));
            },
            Staging::Failed(err) => {
                proof {
                    lemma_stage_all_prefix(texts, models, i + 1);
                }
                let mut text = concat3("Commit failed while staging `", path, "`: ");
                text.append(err.as_str());
                return StagingAll::Step(GitStep::Done(Err(text)));
            },
            Staging::Done(done, next) => {
                if done {
                    let ghost before = staged.deep_view();
                    staged.push(owned(path));
                    assert(staged.deep_view() =~= before.push(path@));
                }
                at = next;
            },
        }
        i += 1;
    }
    assert(texts.take(i as int) =~= texts);
    StagingAll::Done(staged, at)
}

fn commit_said(reply: &Result<String, String>, selected: usize, staged: usize) -> (r: Result<
    String,
    String,
>)
    ensures
        reply_model(r) == commit_result(reply_model(*reply), selected as int, staged as int),
{
    match reply {
        Ok(out) => {
            let first = first_line_of(out.as_str(), "Commit created.");
            let said = concat("Commit succeeded: ", first.as_str());
            if selected > staged {
                let mut text = concat3(
                    said.as_str(),
                    " (ignored ",
                    decimal_usize(selected - staged).as_str(),
                );
                text.append(" stale selection(s)).");
                Ok(text)
            } else {
                Ok(said)
            }
        },
        Err(err) => {
            let text = err.as_str();
            if mentions(text, "nothing to commit") {
                Err(owned("Nothing to commit for selected files."))
            } else if mentions(text, "author identity unknown") || mentions(
                text,
                "please tell me who you are",
            ) || mentions(text, "unable to auto-detect email address") {
                Err(
                    owned(
                        "Commit failed: Git identity is not configured. Set `git config user.name \"Your Name\"` and `git config user.email \"you@example.com\"`, then retry.",
                    ),
                )
            } else if mentions(text, "index.lock") {
                Err(
                    owned(
                        "Commit failed: index lock present. Retry after existing Git operation completes.",
                    ),
                )
            } else if mentions(text, "conflict") {
                Err(owned("Commit failed due to merge conflicts in selected files."))
            } else {
                Err(concat("Commit failed: ", text))
            }
        },
    }
}

/// The commit of the selected paths.
pub fn run_commit_selected(
    selected_paths: &Vec<String>,
    message: &str,
    replies: &Vec<Result<String, String>>,
) -> (step: GitStep)
    ensures
        step.model() == commit_step(
            selected_paths.deep_view(),
            message@,
            reply_models(replies@),
        ),
{
    assert(selected_paths.deep_view().len() == selected_paths@.len());
    if selected_paths.len() == 0 {
        return GitStep::Done(Err(owned("Select at least one file to commit.")));
    }
    if replies.len() == 0 {
        return GitStep::Run(status_args_for(selected_paths));
    }
    assert(reply_models(replies@)[0] == reply_model(replies@[0]));
    let files = match &replies[0] {
        Err(err) => return GitStep::Done(Err(owned(err.as_str()))),
        Ok(status) => match read_porcelain_entries(status.as_str()) {
            None => return GitStep::Unreadable,
            Some(files) => files,
        },
    };
    let active = keep_active(selected_paths, &files);
    assert(active.deep_view().len() == active@.len());
    if active.len() == 0 {
        return GitStep::Done(
            Err(
                owned("Selected files no longer have changes. Refresh Git status and try again."),
            ),
        );
    }
    match stage_active(&active, replies) {
        StagingAll::Step(step) => step,
        StagingAll::Done(staged, at) => {
            assert(staged.deep_view().len() == staged@.len());
            if staged.len() == 0 {
                return GitStep::Done(
                    Err(
                        owned(
                            "Selected files no longer match repository paths. Refresh Git status and try again.",
                        ),
                    ),
                );
            }
            if replies.len() <= at {
                let mut args = args4("commit", "-m", message, "--");
                add_all(&mut args, &staged);
                return GitStep::Run(args);
            }
            assert(reply_models(replies@)[at as int] == reply_model(replies@[at as int]));
            GitStep::Done(commit_said(&replies[at], selected_paths.len(), staged.len()))
        },
    }
}

proof fn lemma_active_paths(selected: Seq<Seq<char>>, files: Seq<FileModel>)
    ensures
        forall|p: Seq<char>| #[trigger]
            active_paths(selected, files).contains(p) ==> selected.contains(p),
        active_paths(selected, files).len() <= selected.len(),
    decreases selected.len(),
{
    if selected.len() > 0 {
        let rest = selected.drop_last();
        lemma_active_paths(rest, files);
        let head = active_paths(rest, files);
        assert forall|p: Seq<char>| #[trigger]
            active_paths(selected, files).contains(p) implies selected.contains(p) by {
            let all = active_paths(selected, files);
            let k = choose|k: int| 0 <= k < all.len() && all[k] == p;
            if k < head.len() {
                assert(head[k] == p);
                assert(head.contains(p));
                let j = choose|j: int| 0 <= j < rest.len() && rest[j] == p;
                assert(selected[j] == p);
            } else {
                assert(selected[selected.len() - 1] == p);
            }
        }
    }
}

proof fn lemma_stage_all(paths: Seq<Seq<char>>, replies: Seq<Result<Seq<char>, Seq<char>>>)
    ensures
        stage_all(paths, replies) matches StageAllModel::Done(staged, at) ==> (forall|p: Seq<char>|
            #[trigger] staged.contains(p) ==> paths.contains(p)) && staged.len() <= paths.len()
            && at <= 1 + 5 * paths.len(),
    decreases paths.len(),
{
    if paths.len() > 0 {
        let rest = paths.drop_last();
        lemma_stage_all(rest, replies);
        match stage_all(paths, replies) {
            StageAllModel::Done(staged, at) => {
                let head = stage_all(rest, replies)->Done_0;
                assert forall|p: Seq<char>| #[trigger] staged.contains(p) implies paths.contains(
                    p,
                ) by {
                    let k = choose|k: int| 0 <= k < staged.len() && staged[k] == p;
                    if k < head.len() {
                        assert(head[k] == p);
                        assert(head.contains(p));
                        let j = choose|j: int| 0 <= j < rest.len() && rest[j] == p;
                        assert(paths[j] == p);
                    } else {
                        assert(paths[paths.len() - 1] == p);
                    }
                }
            },
            _ => {},
        }
    }
}

/// A commit holds selected paths only, at least one, and ends after a bounded number of commands.
pub proof fn lemma_commit_selected_only(
    selected: Seq<Seq<char>>,
    message: Seq<char>,
    replies: Seq<Result<Seq<char>, Seq<char>>>,
    status: Seq<char>,
)
    requires
        selected.len() > 0,
        replies.len() > 0,
        replies[0] == Ok::<Seq<char>, Seq<char>>(status),
        is_porcelain(lines_of(status)),
    ensures
        ({
            let active = active_paths(selected, entries_of(lines_of(status)));
            &&& stage_all(active, replies) matches StageAllModel::Done(staged, at) ==> (forall|
                p: Seq<char>,
            | #[trigger] staged.contains(p) ==> selected.contains(p)) && at <= 1 + 5
                * selected.len()
        }),
{
    let active = active_paths(selected, entries_of(lines_of(status)));
    lemma_active_paths(selected, entries_of(lines_of(status)));
    lemma_stage_all(active, replies);
    match stage_all(active, replies) {
        StageAllModel::Done(staged, at) => {
            assert forall|p: Seq<char>| #[trigger] staged.contains(p) implies selected.contains(
                p,
            ) by {
                assert(active.contains(p));
            }
        },
        _ => {},
    }
}

// ---------------------------------------------------------------------------------------------
// Counting changed lines
// ---------------------------------------------------------------------------------------------
pub open spec fn selected_of(files: Seq<FileModel>) -> Seq<Seq<char>>
    decreases files.len(),
{
    if files.len() == 0 {
        Seq::empty()
    } else if files.last().selected {
        selected_of(files.drop_last()).push(files.last().path)
    } else {
        selected_of(files.drop_last())
    }
}

/// The selected files that are new to the repository.
pub open spec fn untracked_of(files: Seq<FileModel>) -> Seq<Seq<char>>
    decreases files.len(),
{
    if files.len() == 0 {
        Seq::empty()
    } else if files.last().selected && files.last().status == "??"@ {
        untracked_of(files.drop_last()).push(files.last().path)
    } else {
        untracked_of(files.drop_last())
    }
}

pub fn selected_paths(entries: &Vec<GitFileEntry>) -> (paths: Vec<String>)
    ensures
        paths.deep_view() == selected_of(file_models(entries@)),
{
    let ghost models = file_models(entries@);
    let mut paths: Vec<String> = Vec::new();
    let mut i: usize = 0;
    assert(models.take(0) =~= Seq::empty());
    assert(paths.deep_view() =~= Seq::empty());
    while i < entries.len()
        invariant
            i <= entries@.len(),
            models == file_models(entries@),
            paths.deep_view() == selected_of(models.take(i as int)),
        decreases entries.len() - i,
    {
        assert(models.take(i + 1).drop_last() =~= models.take(i as int));
        assert(models.take(i + 1).last() == entries@[i as int].model());
        if entries[i].selected {
            let ghost before = paths.deep_view();
            paths.push(owned(entries[i].path.as_str()));
            assert(paths.deep_view() =~= before.push(entries@[i as int].path@));
        }
        i += 1;
    }
    assert(models.take(i as int) =~= models);
    paths
}

pub fn selected_untracked_paths(entries: &Vec<GitFileEntry>) -> (paths: Vec<String>)
    ensures
        paths.deep_view() == untracked_of(file_models(entries@)),
{
    let ghost models = file_models(entries@);
    let mut paths: Vec<String> = Vec::new();
    let mut i: usize = 0;
    assert(models.take(0) =~= Seq::empty());
    assert(paths.deep_view() =~= Seq::empty());
    while i < entries.len()
        invariant
            i <= entries@.len(),
            models == file_models(entries@),
            paths.deep_view() == untracked_of(models.take(i as int)),
        decreases entries.len() - i,
    {
        assert(models.take(i + 1).drop_last() =~= models.take(i as int));
        assert(models.take(i + 1).last() == entries@[i as int].model());
        if entries[i].selected && same(entries[i].status.as_str(), "??") {
            let ghost before = paths.deep_view();
            paths.push(owned(entries[i].path.as_str()));
            assert(paths.deep_view() =~= before.push(entries@[i as int].path@));
        }
        i += 1;
    }
    assert(models.take(i as int) =~= models);
    paths
}

/// The arguments that count the changed lines of the selected files; none where none is selected
/// and nothing is counted.
pub fn line_delta_args(entries: &Vec<GitFileEntry>) -> (r: Option<Vec<String>>)
    ensures
        match r {
            Some(args) => selected_of(file_models(entries@)).len() > 0 && args.deep_view() == seq![
                "diff"@,
                "--numstat"@,
                "HEAD"@,
                "--"@,
            ] + selected_of(file_models(entries@)),
            None => selected_of(file_models(entries@)).len() == 0,
        },
{
    let paths = selected_paths(entries);
    assert(paths.deep_view().len() == paths@.len());
    if paths.len() == 0 {
        return None;
    }
    let mut args = args4("diff", "--numstat", "HEAD", "--");
    add_all(&mut args, &paths);
    Some(args)
}

pub open spec fn lacks_head(err: Seq<char>) -> bool {
    ||| speaks_of(err, "bad revision 'head'"@)
    ||| speaks_of(err, "ambiguous argument 'head'"@)
    ||| speaks_of(err, "unknown revision or path"@)
}

/// The sum of counts.
pub open spec fn sum_of(counts: Seq<usize>) -> int
    decreases counts.len(),
{
    if counts.len() == 0 {
        0
    } else {
        sum_of(counts.drop_last()) + counts.last()
    }
}

/// What a reply to the count says, without the new files: nothing where there is no commit yet.
pub open spec fn counted_lines(reply: Result<Seq<char>, Seq<char>>) -> Result<(int, int), Seq<char>> {
    match reply {
        Ok(out) => Ok(count_totals(lines_of(out))),
        Err(err) => if lacks_head(err) {
            Ok((0, 0))
        } else {
            Err(err)
        },
    }
}

proof fn lemma_sum_grows(counts: Seq<usize>, k: int)
    requires
        0 <= k <= counts.len(),
    ensures
        0 <= sum_of(counts.take(k)) <= sum_of(counts),
    decreases counts.len(),
{
    if counts.len() == 0 {
        assert(counts.take(k) =~= counts);
    } else if k == counts.len() {
        assert(counts.take(k) =~= counts);
        lemma_sum_grows(counts.drop_last(), k - 1);
    } else {
        lemma_sum_grows(counts.drop_last(), k);
        assert(counts.drop_last().take(k) =~= counts.take(k));
    }
}

/// Whether the lines of the selected files can be added up.
pub open spec fn delta_fits(reply: Result<Seq<char>, Seq<char>>, untracked_lines: Seq<usize>) -> bool {
    counted_lines(reply) matches Ok(t) ==> t.0 + sum_of(untracked_lines) <= usize::MAX && t.1
        <= usize::MAX
}

pub fn line_delta_fits(reply: &Result<String, String>, untracked_lines: &Vec<usize>) -> (r: bool)
    ensures
        r == delta_fits(reply_model(*reply), untracked_lines@),
{
    proof {
        lemma_sum_grows(untracked_lines@, 0);
        assert(untracked_lines@.take(0) =~= Seq::empty());
    }
    let base: usize = match reply {
        Ok(out) => {
            if !crate::git_status::numstat_totals_fit(out.as_str()) {
                return false;
            }
            crate::git_status::parse_numstat_totals(out.as_str()).0
        },
        Err(err) => {
            let text = err.as_str();
            if mentions(text, "bad revision 'head'") || mentions(text, "ambiguous argument 'head'")
                || mentions(text, "unknown revision or path") {
                0
            } else {
                return true;
            }
        },
    };
    let mut added: usize = base;
    let mut i: usize = 0;
    while i < untracked_lines.len()
        invariant
            i <= untracked_lines@.len(),
            counted_lines(reply_model(*reply)) matches Ok(t) && t.0 == base && t.1 <= usize::MAX,
            added == base + sum_of(untracked_lines@.take(i as int)),
        decreases untracked_lines.len() - i,
    {
        assert(untracked_lines@.take(i + 1).drop_last() =~= untracked_lines@.take(i as int));
        proof {
            lemma_sum_grows(untracked_lines@, i + 1);
        }
        if untracked_lines[i] > usize::MAX - added {
            return false;
        }
        added += untracked_lines[i];
        i += 1;
    }
    assert(untracked_lines@.take(i as int) =~= untracked_lines@);
    true
}

/// The added and removed lines of the selected files: what git counts, plus the lines of the new
/// files.
pub fn selected_line_delta(reply: &Result<String, String>, untracked_lines: &Vec<usize>) -> (r:
    Result<(usize, usize), String>)
    requires
        delta_fits(reply_model(*reply), untracked_lines@),
    ensures
        match counted_lines(reply_model(*reply)) {
            Ok(t) => r matches Ok(d) && d.0 == t.0 + sum_of(untracked_lines@) && d.1 == t.1,
            Err(err) => r matches Err(e) && e@ == err,
        },
{
    proof {
        lemma_sum_grows(untracked_lines@, 0);
        assert(untracked_lines@.take(0) =~= Seq::empty());
    }
    let base: (usize, usize) = match reply {
        Ok(out) => crate::git_status::parse_numstat_totals(out.as_str()),
        Err(err) => {
            let text = err.as_str();
            if mentions(text, "bad revision 'head'") || mentions(text, "ambiguous argument 'head'")
                || mentions(text, "unknown revision or path") {
                (0, 0)
            } else {
                return Err(owned(text));
            }
        },
    };
    let mut added: usize = base.0;
    let mut i: usize = 0;
    while i < untracked_lines.len()
        invariant
            i <= untracked_lines@.len(),
            base.0 + sum_of(untracked_lines@) <= usize::MAX,
            added == base.0 + sum_of(untracked_lines@.take(i as int)),
        decreases untracked_lines.len() - i,
    {
        assert(untracked_lines@.take(i + 1).drop_last() =~= untracked_lines@.take(i as int));
        proof {
            lemma_sum_grows(untracked_lines@, i + 1);
        }
        added += untracked_lines[i];
        i += 1;
    }
    assert(untracked_lines@.take(i as int) =~= untracked_lines@);
    Ok((added, base.1))
}

// ---------------------------------------------------------------------------------------------
// New repositories
// ---------------------------------------------------------------------------------------------
pub struct InitRepoOptions {
    pub branch: String,
    pub create_gitignore: bool,
    pub create_initial_commit: bool,
    pub commit_message: String,
}

/// What the setup of a repository does next.
#[derive(Debug)]
pub enum InitStep {
    Run(Vec<String>),
    /// Write this text to `.gitignore` unless it is there, and come back with the error, if any.
    WriteGitignore(String),
    Done(Result<String, String>),
}

#[verifier::ext_equal]
pub ghost enum InitModel {
    Run(Seq<Seq<char>>),
    WriteGitignore(Seq<char>),
    Done(Result<Seq<char>, Seq<char>>),
}

impl InitStep {
    pub open spec fn model(self) -> InitModel {
        match self {
            InitStep::Run(args) => InitModel::Run(args.deep_view()),
            InitStep::WriteGitignore(text) => InitModel::WriteGitignore(text@),
            InitStep::Done(r) => InitModel::Done(reply_model(r)),
        }
    }
}

pub open spec fn init_done() -> InitModel {
    InitModel::Done(
        Ok(
            "Repository initialized successfully. Next: add remote (`git remote add origin <url>`) and push."@,
        ),
    )
}

/// The first commit of a new repository. `at` replies came before.
pub open spec fn first_commit_step(
    message: Seq<char>,
    replies: Seq<Result<Seq<char>, Seq<char>>>,
    at: int,
) -> InitModel {
    if replies.len() <= at {
        InitModel::Run(seq!["add"@, "-A"@])
    } else if replies[at] is Err {
        InitModel::Done(Err(replies[at]->Err_0))
    } else if replies.len() <= at + 1 {
        InitModel::Run(seq!["commit"@, "-m"@, message])
    } else {
        match replies[at + 1] {
            Ok(_) => init_done(),
            Err(err) => if speaks_of(err, "user.name"@) || speaks_of(err, "user.email"@) {
                InitModel::Done(
                    Err(
                        "Repository initialized, but initial commit failed. Configure Git identity with `git config user.name` and `git config user.email`, then commit again."@,
                    ),
                )
            } else if speaks_of(err, "nothing to commit"@) {
                InitModel::Done(
                    Ok(
                        "Repository initialized. No files to commit yet; add files and create your first commit."@,
                    ),
                )
            } else {
                InitModel::Done(
                    Err("Repository initialized, but initial commit failed: "@ + err),
                )
            },
        }
    }
}

/// What follows once git has set the repository up. `at` replies came before.
pub open spec fn after_init_step(
    options: InitRepoOptions,
    replies: Seq<Result<Seq<char>, Seq<char>>>,
    at: int,
) -> InitModel {
    if options.create_gitignore && replies.len() <= at {
        InitModel::WriteGitignore(
            "# Build output\n/target\n\n# Local environment\n.env\n.env.*\n\n# OS files\n.DS_Store\nThumbs.db\n"@,
        )
    } else if options.create_gitignore && replies[at] is Err {
        InitModel::Done(
            Err(
                "Initialize failed: unable to write .gitignore ("@ + replies[at]->Err_0 + ")"@,
            ),
        )
    } else {
        let next = if options.create_gitignore {
            at + 1
        } else {
            at
        };
        if options.create_initial_commit {
            first_commit_step(options.commit_message@, replies, next)
        } else {
            init_done()
        }
    }
}

pub open spec fn init_step(
    workspace_is_dir: bool,
    has_repository: bool,
    options: InitRepoOptions,
    replies: Seq<Result<Seq<char>, Seq<char>>>,
) -> InitModel {
    if !workspace_is_dir {
        InitModel::Done(Err("Initialize failed: workspace path does not exist."@))
    } else if has_repository {
        InitModel::Done(Err("A Git repository already exists in this workspace."@))
    } else if replies.len() == 0 {
        InitModel::Run(seq!["init"@, "--initial-branch"@, options.branch@])
    } else if replies[0] is Ok {
        after_init_step(options, replies, 1)
    } else if replies.len() == 1 {
        InitModel::Run(seq!["init"@])
    } else if replies[1] is Err {
        InitModel::Done(Err(replies[1]->Err_0))
    } else if replies.len() == 2 {
        InitModel::Run(seq!["symbolic-ref"@, "HEAD"@, "refs/heads/"@ + options.branch@])
    } else {
        after_init_step(options, replies, 3)
    }
}

fn init_succeeded() -> (step: InitStep)
    ensures
        step.model() == init_done(),
{
    InitStep::Done(
        Ok(
            owned(
                "Repository initialized successfully. Next: add remote (`git remote add origin <url>`) and push.",
            ),
        ),
    )
}

fn first_commit(message: &str, replies: &Vec<Result<String, String>>, at: usize) -> (step: InitStep)
    requires
        at <= 4,
    ensures
        step.model() == first_commit_step(message@, reply_models(replies@), at as int),
{
    if replies.len() <= at {
        return InitStep::Run(args2("add", "-A"));
    }
    assert(reply_models(replies@)[at as int] == reply_model(replies@[at as int]));
    match &replies[at] {
        Err(err) => return InitStep::Done(Err(owned(err.as_str()))),
        Ok(_) => {},
    }
    if replies.len() <= at + 1 {
        return InitStep::Run(args3("commit", "-m", message));
    }
    assert(reply_models(replies@)[at + 1] == reply_model(replies@[at + 1]));
    match &replies[at + 1] {
        Ok(_) => init_succeeded(),
        Err(err) => {
            let text = err.as_str();
            if mentions(text, "user.name") || mentions(text, "user.email") {
                InitStep::Done(
                    Err(
                        owned(
                            "Repository initialized, but initial commit failed. Configure Git identity with `git config user.name` and `git config user.email`, then commit again.",
                        ),
                    ),
                )
            } else if mentions(text, "nothing to commit") {
                InitStep::Done(
                    Ok(
                        owned(
                            "Repository initialized. No files to commit yet; add files and create your first commit.",
                        ),
                    ),
                )
            } else {
                InitStep::Done(
                    Err(concat("Repository initialized, but initial commit failed: ", text)),
                )
            }
        },
    }
}

fn after_init(options: &InitRepoOptions, replies: &Vec<Result<String, String>>, at: usize) -> (step:
    InitStep)
    requires
        at <= 3,
    ensures
        step.model() == after_init_step(*options, reply_models(replies@), at as int),
{
    let mut next: usize = at;
    if options.create_gitignore {
        if replies.len() <= at {
            return InitStep::WriteGitignore(
                owned(
                    "# Build output\n/target\n\n# Local environment\n.env\n.env.*\n\n# OS files\n.DS_Store\nThumbs.db\n",
                ),
            );
        }
        assert(reply_models(replies@)[at as int] == reply_model(replies@[at as int]));
        match &replies[at] {
            Err(err) => {
                return InitStep::Done(
                    Err(
                        concat3(
                            "Initialize failed: unable to write .gitignore (",
                            err.as_str(),
                            ")",
                        ),
                    ),
                );
            },
            Ok(_) => {},
        }
        next = at + 1;
    }
    if options.create_initial_commit {
        first_commit(options.commit_message.as_str(), replies, next)
    } else {
        init_succeeded()
    }
}

pub fn run_initialize_repository(
    workspace_is_dir: bool,
    has_repository: bool,
    options: &InitRepoOptions,
    replies: &Vec<Result<String, String>>,
) -> (step: InitStep)
    ensures
        step.model() == init_step(
            workspace_is_dir,
            has_repository,
            *options,
            reply_models(replies@),
        ),
{
    if !workspace_is_dir {
        return InitStep::Done(Err(owned("Initialize failed: workspace path does not exist.")));
    }
    if has_repository {
        return InitStep::Done(Err(owned("A Git repository already exists in this workspace.")));
    }
    if replies.len() == 0 {
        return InitStep::Run(args3("init", "--initial-branch", options.branch.as_str()));
    }
    assert(reply_models(replies@)[0] == reply_model(replies@[0]));
    match &replies[0] {
        Ok(_) => return after_init(options, replies, 1),
        Err(_) => {},
    }
    if replies.len() == 1 {
        let mut args: Vec<String> = Vec::new();
        arg(&mut args, "init");
        assert(args.deep_view() =~= seq!["init"@]);
        return InitStep::Run(args);
    }
    assert(reply_models(replies@)[1] == reply_model(replies@[1]));
    match &replies[1] {
        Err(err) => return InitStep::Done(Err(owned(err.as_str()))),
        Ok(_) => {},
    }
    if replies.len() == 2 {
        let target = concat("refs/heads/", options.branch.as_str());
        return InitStep::Run(args3("symbolic-ref", "HEAD", target.as_str()));
    }
    after_init(options, replies, 3)
}

/// A repository that is there is left alone: nothing is run or written where the workspace has
/// one.
pub proof fn lemma_init_leaves_repository_alone(
    workspace_is_dir: bool,
    options: InitRepoOptions,
    replies: Seq<Result<Seq<char>, Seq<char>>>,
)
    ensures
        init_step(workspace_is_dir, true, options, replies) matches InitModel::Done(r) && r is Err,
        replies.len() >= 6 ==> init_step(workspace_is_dir, false, options, replies) is Done,
{
}

} // verus!
