//! The state of a repository, gathered in a dialogue with git.
//!
//! The dialogue runs in phases. Each phase is a function of the replies so far and of the number
//! of replies that came before it: it asks for a command, or has its finding and the number of
//! replies that it has used up.
use crate::git_flow::{args2, args3, args4};
use crate::git_status::{
    count_in, parse_compact_commit_lines, read_porcelain_entries, remote_name_from_upstream_ref,
    GitFileEntry, LocalCommitEntry,
};
use crate::lines::nonblank_lines;
use crate::number::decimal_usize;
use crate::paths::file_name_of;
use crate::text::{concat, concat3, owned, same, starts_with, trim};
use vstd::prelude::*;
#[allow(unused_imports)]
use crate::git_flow::{remotes_in, reply_model, reply_models};
#[allow(unused_imports)]
use crate::git_status::{
    commit_lines, commits_in, entries_of, file_models, is_porcelain, number_or_zero, remote_of,
    CommitLine, FileModel,
};
#[allow(unused_imports)]
use crate::lines::lines_of;
#[allow(unused_imports)]
use crate::number::decimal;
#[allow(unused_imports)]
use crate::paths::{last_name, reads_alike};
#[allow(unused_imports)]
use crate::text::{contains_text, starts_with_text, trimmed};

verus! {

/// The state of a repository.
#[derive(Debug)]
pub struct GitSnapshot {
    pub workspace_root: String,
    pub repo_name: String,
    pub repository_url: String,
    pub branch_label: String,
    pub push_hint: String,
    pub has_upstream: bool,
    pub ahead_count: usize,
    pub unpushed_commits: Vec<LocalCommitEntry>,
    pub remotes: Vec<String>,
    pub files: Vec<GitFileEntry>,
}

#[verifier::ext_equal]
pub ghost struct SnapshotModel {
    pub workspace_root: Seq<char>,
    pub repo_name: Seq<char>,
    pub repository_url: Seq<char>,
    pub branch_label: Seq<char>,
    pub push_hint: Seq<char>,
    pub has_upstream: bool,
    pub ahead_count: int,
    pub unpushed_commits: Seq<CommitLine>,
    pub remotes: Seq<Seq<char>>,
    pub files: Seq<FileModel>,
}

impl GitSnapshot {
    pub open spec fn model(self) -> SnapshotModel {
        SnapshotModel {
            workspace_root: self.workspace_root@,
            repo_name: self.repo_name@,
            repository_url: self.repository_url@,
            branch_label: self.branch_label@,
            push_hint: self.push_hint@,
            has_upstream: self.has_upstream,
            ahead_count: self.ahead_count as int,
            unpushed_commits: commit_lines(self.unpushed_commits@),
            remotes: self.remotes.deep_view(),
            files: file_models(self.files@),
        }
    }
}

/// What the gathering does next.
#[derive(Debug)]
pub enum SnapshotStep {
    Run(Vec<String>),
    Failed(String),
    Loaded(GitSnapshot),
    /// A status listing cannot be read.
    Unreadable,
}

#[verifier::ext_equal]
pub ghost enum SnapshotStepModel {
    Run(Seq<Seq<char>>),
    Failed(Seq<char>),
    Loaded(SnapshotModel),
    Unreadable,
}

impl SnapshotStep {
    pub open spec fn model(self) -> SnapshotStepModel {
        match self {
            SnapshotStep::Run(args) => SnapshotStepModel::Run(args.deep_view()),
            SnapshotStep::Failed(err) => SnapshotStepModel::Failed(err@),
            SnapshotStep::Loaded(s) => SnapshotStepModel::Loaded(s.model()),
            SnapshotStep::Unreadable => SnapshotStepModel::Unreadable,
        }
    }
}

/// A phase of the dialogue.
#[verifier::ext_equal]
pub ghost enum Phase<T> {
    Ask(Seq<Seq<char>>),
    Got(T, int),
}

// ---------------------------------------------------------------------------------------------
// The phases
// ---------------------------------------------------------------------------------------------
/// The label of the branch: its name, or the commit where none is checked out.
pub open spec fn branch_phase(
    replies: Seq<Result<Seq<char>, Seq<char>>>,
    at: int,
) -> Phase<Seq<char>> {
    if replies.len() <= at {
        Phase::Ask(seq!["symbolic-ref"@, "--short"@, "HEAD"@])
    } else {
        match replies[at] {
            Ok(out) => Phase::Got(trimmed(out), at + 1),
            Err(_) => if replies.len() <= at + 1 {
                Phase::Ask(seq!["rev-parse"@, "--short"@, "HEAD"@])
            } else {
                let commit = match replies[at + 1] {
                    Ok(out) => trimmed(out),
                    Err(_) => trimmed("unknown"@),
                };
                Phase::Got("detached@"@ + commit, at + 2)
            },
        }
    }
}

pub open spec fn has_value(reply: Result<Seq<char>, Seq<char>>) -> bool {
    reply matches Ok(out) && trimmed(out).len() > 0
}

/// Whether the branch has an upstream: a remote and a branch there are configured.
pub open spec fn upstream_phase(
    label: Seq<char>,
    replies: Seq<Result<Seq<char>, Seq<char>>>,
    at: int,
) -> Phase<bool> {
    if starts_with_text(label, "detached@"@) {
        Phase::Got(false, at)
    } else if replies.len() <= at {
        Phase::Ask(seq!["config"@, "--get"@, "branch."@ + label + ".remote"@])
    } else if replies.len() <= at + 1 {
        Phase::Ask(seq!["config"@, "--get"@, "branch."@ + label + ".merge"@])
    } else {
        Phase::Got(has_value(replies[at]) && has_value(replies[at + 1]), at + 2)
    }
}

pub open spec fn remotes_phase(
    replies: Seq<Result<Seq<char>, Seq<char>>>,
    at: int,
) -> Phase<Seq<Seq<char>>> {
    if replies.len() <= at {
        Phase::Ask(seq!["remote"@])
    } else {
        Phase::Got(remotes_in(replies[at]), at + 1)
    }
}

/// The address of a remote: the one to push to, or else the one to fetch from.
pub open spec fn url_phase(
    remote: Seq<char>,
    replies: Seq<Result<Seq<char>, Seq<char>>>,
    at: int,
) -> Phase<Seq<char>> {
    if replies.len() <= at {
        Phase::Ask(seq!["remote"@, "get-url"@, "--push"@, remote])
    } else {
        match replies[at] {
            Ok(out) => Phase::Got(trimmed(out), at + 1),
            Err(_) => if replies.len() <= at + 1 {
                Phase::Ask(seq!["remote"@, "get-url"@, remote])
            } else {
                Phase::Got(
                    match replies[at + 1] {
                        Ok(out) => trimmed(out),
                        Err(_) => Seq::empty(),
                    },
                    at + 2,
                )
            },
        }
    }
}

/// The addresses of all remotes, in their order.
pub open spec fn urls_phase(
    remotes: Seq<Seq<char>>,
    replies: Seq<Result<Seq<char>, Seq<char>>>,
    at: int,
) -> Phase<Seq<Seq<char>>>
    decreases remotes.len(),
{
    if remotes.len() == 0 {
        Phase::Got(Seq::empty(), at)
    } else {
        match urls_phase(remotes.drop_last(), replies, at) {
            Phase::Ask(args) => Phase::Ask(args),
            Phase::Got(urls, next) => match url_phase(remotes.last(), replies, next) {
                Phase::Ask(args) => Phase::Ask(args),
                Phase::Got(url, after) => Phase::Got(urls.push(url), after),
            },
        }
    }
}

/// The remote of the upstream, where there is one.
pub open spec fn upstream_remote_phase(
    has_upstream: bool,
    remotes: Seq<Seq<char>>,
    replies: Seq<Result<Seq<char>, Seq<char>>>,
    at: int,
) -> Phase<Option<Seq<char>>> {
    if !has_upstream {
        Phase::Got(None, at)
    } else if replies.len() <= at {
        Phase::Ask(seq!["rev-parse"@, "--abbrev-ref"@, "--symbolic-full-name"@, "@{u}"@])
    } else {
        Phase::Got(
            match replies[at] {
                Ok(out) => remote_of(trimmed(out), remotes),
                Err(_) => None,
            },
            at + 1,
        )
    }
}

/// The address of the first remote with a name.
pub open spec fn url_of(
    remotes: Seq<Seq<char>>,
    urls: Seq<Seq<char>>,
    name: Seq<char>,
) -> Option<Seq<char>>
    decreases remotes.len(),
{
    if remotes.len() == 0 || urls.len() == 0 {
        None
    } else if remotes[0] == name {
        Some(urls[0])
    } else {
        url_of(remotes.drop_first(), urls.drop_first(), name)
    }
}

/// The address of the repository: that of the upstream's remote, or of the first one.
pub open spec fn repository_url(
    upstream_remote: Option<Seq<char>>,
    remotes: Seq<Seq<char>>,
    urls: Seq<Seq<char>>,
) -> Seq<char> {
    let name = match upstream_remote {
        Some(n) => Some(n),
        None => if remotes.len() > 0 {
            Some(remotes[0])
        } else {
            None
        },
    };
    match name {
        Some(n) => match url_of(remotes, urls, n) {
            Some(url) => if url.len() > 0 {
                url
            } else {
                "—"@
            },
            None => "—"@,
        },
        None => "—"@,
    }
}

/// What is ahead of the upstream.
#[verifier::ext_equal]
pub ghost struct AheadModel {
    pub count: int,
    pub commits: Seq<CommitLine>,
    pub hint: Seq<char>,
}

pub open spec fn recent_args() -> Seq<Seq<char>> {
    seq!["log"@, "--max-count"@, "8"@, "--pretty=format:%h%x09%s"@]
}

pub open spec fn commits_reply(reply: Result<Seq<char>, Seq<char>>) -> Seq<CommitLine> {
    match reply {
        Ok(out) => commits_in(out),
        Err(_) => Seq::empty(),
    }
}

/// The commits that `args` list, under a hint.
pub open spec fn listed_phase(
    count: int,
    args: Seq<Seq<char>>,
    hint: Seq<char>,
    replies: Seq<Result<Seq<char>, Seq<char>>>,
    at: int,
) -> Phase<AheadModel> {
    if replies.len() <= at {
        Phase::Ask(args)
    } else {
        Phase::Got(AheadModel { count, commits: commits_reply(replies[at]), hint }, at + 1)
    }
}

pub open spec fn all_pushed(at: int) -> Phase<AheadModel> {
    Phase::Got(
        AheadModel { count: 0, commits: Seq::empty(), hint: "All commits are pushed."@ },
        at,
    )
}

/// How far a branch with an upstream is ahead of it. An upstream that was never pushed to cannot
/// be compared with; all commits count then.
pub open spec fn tracked_phase(
    replies: Seq<Result<Seq<char>, Seq<char>>>,
    at: int,
) -> Phase<AheadModel> {
    if replies.len() <= at {
        Phase::Ask(seq!["rev-list"@, "--count"@, "@{u}..HEAD"@])
    } else {
        match replies[at] {
            Ok(out) => {
                let n = number_or_zero(out);
                if n > 0 {
                    listed_phase(
                        n,
                        recent_args().push("@{u}..HEAD"@),
                        decimal(n as nat) + " commit(s) ahead of upstream."@,
                        replies,
                        at + 1,
                    )
                } else {
                    all_pushed(at + 1)
                }
            },
            Err(_) => if replies.len() <= at + 1 {
                Phase::Ask(seq!["rev-list"@, "--count"@, "HEAD"@])
            } else {
                match replies[at + 1] {
                    Ok(out) => {
                        let n = number_or_zero(out);
                        if n > 0 {
                            listed_phase(
                                n,
                                recent_args(),
                                "Upstream configured but not published yet. Push to publish this branch."@,
                                replies,
                                at + 2,
                            )
                        } else {
                            all_pushed(at + 2)
                        }
                    },
                    Err(_) => all_pushed(at + 2),
                }
            },
        }
    }
}

/// The commits of a branch without an upstream.
pub open spec fn untracked_phase(
    replies: Seq<Result<Seq<char>, Seq<char>>>,
    at: int,
) -> Phase<AheadModel> {
    if replies.len() <= at {
        Phase::Ask(seq!["rev-list"@, "--count"@, "HEAD"@])
    } else {
        let n = match replies[at] {
            Ok(out) => number_or_zero(out),
            Err(_) => 0,
        };
        if n > 0 {
            listed_phase(
                n,
                recent_args(),
                "No upstream configured; showing recent local commits."@,
                replies,
                at + 1,
            )
        } else {
            Phase::Got(
                AheadModel {
                    count: 0,
                    commits: Seq::empty(),
                    hint: "No commits yet; create one to start publishing."@,
                },
                at + 1,
            )
        }
    }
}

pub open spec fn ahead_phase(
    has_upstream: bool,
    replies: Seq<Result<Seq<char>, Seq<char>>>,
    at: int,
) -> Phase<AheadModel> {
    if has_upstream {
        tracked_phase(replies, at)
    } else {
        untracked_phase(replies, at)
    }
}

/// What was found before the status listing.
#[verifier::ext_equal]
pub ghost struct FindingsModel {
    pub label: Seq<char>,
    pub has_upstream: bool,
    pub remotes: Seq<Seq<char>>,
    pub url: Seq<char>,
    pub ahead: AheadModel,
}

/// All phases before the status listing.
pub open spec fn findings_phase(
    replies: Seq<Result<Seq<char>, Seq<char>>>,
    at: int,
) -> Phase<FindingsModel> {
    match branch_phase(replies, at) {
        Phase::Ask(args) => Phase::Ask(args),
        Phase::Got(label, a) => match upstream_phase(label, replies, a) {
            Phase::Ask(args) => Phase::Ask(args),
            Phase::Got(has_upstream, b) => match remotes_phase(replies, b) {
                Phase::Ask(args) => Phase::Ask(args),
                Phase::Got(remotes, c) => match urls_phase(remotes, replies, c) {
                    Phase::Ask(args) => Phase::Ask(args),
                    Phase::Got(urls, d) => match upstream_remote_phase(
                        has_upstream,
                        remotes,
                        replies,
                        d,
                    ) {
                        Phase::Ask(args) => Phase::Ask(args),
                        Phase::Got(upstream_remote, e) => match ahead_phase(
                            has_upstream,
                            replies,
                            e,
                        ) {
                            Phase::Ask(args) => Phase::Ask(args),
                            Phase::Got(ahead, f) => Phase::Got(
                                FindingsModel {
                                    label,
                                    has_upstream,
                                    remotes,
                                    url: repository_url(upstream_remote, remotes, urls),
                                    ahead,
                                },
                                f,
                            ),
                        },
                    },
                },
            },
        },
    }
}

/// The gathering of the state of a repository.
pub open spec fn snapshot_step(
    workspace_root: Seq<char>,
    repo_name: Seq<char>,
    replies: Seq<Result<Seq<char>, Seq<char>>>,
) -> SnapshotStepModel {
    if replies.len() == 0 {
        SnapshotStepModel::Run(seq!["rev-parse"@, "--is-inside-work-tree"@])
    } else if replies[0] is Err {
        SnapshotStepModel::Failed("No Git repository found for the active workspace."@)
    } else {
        match findings_phase(replies, 1) {
            Phase::Ask(args) => SnapshotStepModel::Run(args),
            Phase::Got(found, at) => if replies.len() <= at {
                SnapshotStepModel::Run(
                    seq!["status"@, "--porcelain=v1"@, "--untracked-files=all"@],
                )
            } else {
                match replies[at] {
                    Err(err) => SnapshotStepModel::Failed(err),
                    Ok(status) => if !is_porcelain(lines_of(status)) {
                        SnapshotStepModel::Unreadable
                    } else {
                        SnapshotStepModel::Loaded(
                            SnapshotModel {
                                workspace_root,
                                repo_name,
                                repository_url: found.url,
                                branch_label: found.label,
                                push_hint: found.ahead.hint,
                                has_upstream: found.has_upstream,
                                ahead_count: found.ahead.count,
                                unpushed_commits: found.ahead.commits,
                                remotes: found.remotes,
                                files: entries_of(lines_of(status)),
                            },
                        )
                    },
                }
            },
        }
    }
}

// ---------------------------------------------------------------------------------------------
// Properties
// ---------------------------------------------------------------------------------------------
proof fn lemma_urls_phase(
    remotes: Seq<Seq<char>>,
    replies: Seq<Result<Seq<char>, Seq<char>>>,
    at: int,
)
    ensures
        match urls_phase(remotes, replies, at) {
            Phase::Got(urls, next) => urls.len() == remotes.len() && at <= next <= at + 2
                * remotes.len() && (at <= replies.len() ==> next <= replies.len()),
            Phase::Ask(_) => replies.len() <= at + 2 * remotes.len(),
        },
    decreases remotes.len(),
{
    if remotes.len() > 0 {
        lemma_urls_phase(remotes.drop_last(), replies, at);
    }
}

/// A repository with `k` remotes is known after at most ten commands and two for each remote; and
/// a branch that is not ahead lists no commits.
pub proof fn lemma_snapshot_ends(
    workspace_root: Seq<char>,
    repo_name: Seq<char>,
    replies: Seq<Result<Seq<char>, Seq<char>>>,
    most_remotes: nat,
)
    requires
        replies.len() >= 11 + 2 * most_remotes,
        forall|i: int|
            0 <= i < replies.len() ==> remotes_in(#[trigger] replies[i]).len() <= most_remotes,
    ensures
        snapshot_step(workspace_root, repo_name, replies) !is Run,
        snapshot_step(workspace_root, repo_name, replies) matches SnapshotStepModel::Loaded(s)
            ==> s.ahead_count >= 0 && (s.ahead_count == 0 ==> s.unpushed_commits.len() == 0),
{
    if replies[0] is Ok {
        match branch_phase(replies, 1) {
            Phase::Ask(_) => {},
            Phase::Got(label, a) => {
                match upstream_phase(label, replies, a) {
                    Phase::Ask(_) => {},
                    Phase::Got(has_upstream, b) => {
                        assert(1 < a <= 3 && b <= 5);
                        let remotes = remotes_in(replies[b]);
                        lemma_urls_phase(remotes, replies, b + 1);
                        assert(2 * remotes.len() <= 2 * most_remotes);
                    },
                }
            },
        }
    }
}

// ---------------------------------------------------------------------------------------------
// The dialogue
// ---------------------------------------------------------------------------------------------
enum Finding<T> {
    Ask(Vec<String>),
    Got(T, usize),
}

fn find_branch(replies: &Vec<Result<String, String>>, at: usize) -> (f: Finding<String>)
    requires
        at <= replies@.len(),
    ensures
        match f {
            Finding::Ask(args) => branch_phase(reply_models(replies@), at as int) == Phase::<
                Seq<char>,
            >::Ask(args.deep_view()),
            Finding::Got(label, n) => branch_phase(reply_models(replies@), at as int) == Phase::Got(
                label@,
                n as int,
            ) && n <= replies@.len(),
        },
{
    let ghost models = reply_models(replies@);
    if replies.len() <= at {
        return Finding::Ask(args3("symbolic-ref", "--short", "HEAD"));
    }
    assert(models[at as int] == reply_model(replies@[at as int]));
    match &replies[at] {
        Ok(out) => Finding::Got(trim(out.as_str()), at + 1),
        Err(_) => {
            if replies.len() - at <= 1 {
                return Finding::Ask(args3("rev-parse", "--short", "HEAD"));
            }
            assert(models[at + 1] == reply_model(replies@[at + 1]));
            let commit = match &replies[at + 1] {
                Ok(out) => trim(out.as_str()),
                Err(_) => trim("unknown"),
            };
            Finding::Got(concat("detached@", commit.as_str()), at + 2)
        },
    }
}

fn reply_has_value(reply: &Result<String, String>) -> (r: bool)
    ensures
        r == has_value(reply_model(*reply)),
{
    match reply {
        Ok(out) => !trim(out.as_str()).as_str().is_empty(),
        Err(_) => false,
    }
}

fn find_upstream(label: &str, replies: &Vec<Result<String, String>>, at: usize) -> (f: Finding<
    bool,
>)
    requires
        at <= replies@.len(),
    ensures
        match f {
            Finding::Ask(args) => upstream_phase(label@, reply_models(replies@), at as int)
                == Phase::<bool>::Ask(args.deep_view()),
            Finding::Got(b, n) => upstream_phase(label@, reply_models(replies@), at as int)
                == Phase::Got(b, n as int) && n <= replies@.len(),
        },
{
    let ghost models = reply_models(replies@);
    if starts_with(label, "detached@") {
        return Finding::Got(false, at);
    }
    if replies.len() <= at {
        let key = concat3("branch.", label, ".remote");
        return Finding::Ask(args3("config", "--get", key.as_str()));
    }
    if replies.len() - at <= 1 {
        let key = concat3("branch.", label, ".merge");
        return Finding::Ask(args3("config", "--get", key.as_str()));
    }
    assert(models[at as int] == reply_model(replies@[at as int]));
    assert(models[at + 1] == reply_model(replies@[at + 1]));
    let found = reply_has_value(&replies[at]) && reply_has_value(&replies[at + 1]);
    Finding::Got(found, at + 2)
}

fn find_remotes(replies: &Vec<Result<String, String>>, at: usize) -> (f: Finding<Vec<String>>)
    requires
        at <= replies@.len(),
    ensures
        match f {
            Finding::Ask(args) => remotes_phase(reply_models(replies@), at as int) == Phase::<
                Seq<Seq<char>>,
            >::Ask(args.deep_view()),
            Finding::Got(remotes, n) => remotes_phase(reply_models(replies@), at as int)
                == Phase::Got(remotes.deep_view(), n as int) && n <= replies@.len(),
        },
{
    let ghost models = reply_models(replies@);
    if replies.len() <= at {
        let mut args: Vec<String> = Vec::new();
        args.push(owned("remote"));
        assert(args.deep_view() =~= seq!["remote"@]);
        return Finding::Ask(args);
    }
    assert(models[at as int] == reply_model(replies@[at as int]));
    let remotes = match &replies[at] {
        Ok(out) => nonblank_lines(out.as_str()),
        Err(_) => {
            let none: Vec<String> = Vec::new();
            assert(none.deep_view() =~= Seq::empty());
            none
        },
    };
    Finding::Got(remotes, at + 1)
}

fn find_url(remote: &str, replies: &Vec<Result<String, String>>, at: usize) -> (f: Finding<String>)
    requires
        at <= replies@.len(),
    ensures
        match f {
            Finding::Ask(args) => url_phase(remote@, reply_models(replies@), at as int) == Phase::<
                Seq<char>,
            >::Ask(args.deep_view()),
            Finding::Got(url, n) => url_phase(remote@, reply_models(replies@), at as int)
                == Phase::Got(url@, n as int) && n <= replies@.len(),
        },
{
    let ghost models = reply_models(replies@);
    if replies.len() <= at {
        return Finding::Ask(args4("remote", "get-url", "--push", remote));
    }
    assert(models[at as int] == reply_model(replies@[at as int]));
    match &replies[at] {
        Ok(out) => Finding::Got(trim(out.as_str()), at + 1),
        Err(_) => {
            if replies.len() - at <= 1 {
                return Finding::Ask(args3("remote", "get-url", remote));
            }
            assert(models[at + 1] == reply_model(replies@[at + 1]));
            let url = match &replies[at + 1] {
                Ok(out) => trim(out.as_str()),
                Err(_) => String::new(),
            };
            Finding::Got(url, at + 2)
        },
    }
}

proof fn lemma_urls_ask(
    remotes: Seq<Seq<char>>,
    replies: Seq<Result<Seq<char>, Seq<char>>>,
    at: int,
    k: int,
)
    requires
        0 <= k <= remotes.len(),
        urls_phase(remotes.take(k), replies, at) is Ask,
    ensures
        urls_phase(remotes, replies, at) == urls_phase(remotes.take(k), replies, at),
    decreases remotes.len() - k,
{
    if k == remotes.len() {
        assert(remotes.take(k) =~= remotes);
    } else {
        assert(remotes.take(k + 1).drop_last() =~= remotes.take(k));
        lemma_urls_ask(remotes, replies, at, k + 1);
    }
}

fn find_urls(remotes: &Vec<String>, replies: &Vec<Result<String, String>>, at: usize) -> (f:
    Finding<Vec<String>>)
    requires
        at <= replies@.len(),
    ensures
        match f {
            Finding::Ask(args) => urls_phase(
                remotes.deep_view(),
                reply_models(replies@),
                at as int,
            ) == Phase::<Seq<Seq<char>>>::Ask(args.deep_view()),
            Finding::Got(urls, n) => urls_phase(
                remotes.deep_view(),
                reply_models(replies@),
                at as int,
            ) == Phase::Got(urls.deep_view(), n as int) && n <= replies@.len(),
        },
{
    let ghost models = reply_models(replies@);
    let ghost names = remotes.deep_view();
    let mut urls: Vec<String> = Vec::new();
    let mut n: usize = at;
    let mut i: usize = 0;
    assert(names.take(0) =~= Seq::empty());
    assert(urls.deep_view() =~= Seq::empty());
    while i < remotes.len()
        invariant
            i <= remotes@.len(),
            n <= replies@.len(),
            models == reply_models(replies@),
            names == remotes.deep_view(),
            urls_phase(names.take(i as int), models, at as int) == Phase::Got(
                urls.deep_view(),
                n as int,
            ),
        decreases remotes.len() - i,
    {
        assert(names.take(i + 1).drop_last() =~= names.take(i as int));
        assert(names.take(i + 1).last() == remotes@[i as int]@);
        match find_url(remotes[i].as_str(), replies, n) {
            Finding::Ask(args) => {
                proof {
                    lemma_urls_ask(names, models, at as int, i + 1);
                }
                return Finding::Ask(args);
            },
            Finding::Got(url, next) => {
                let ghost before = urls.deep_view();
                urls.push(url);
                assert(urls.deep_view() =~= before.push(url@));
                n = next;
            },
        }
        i += 1;
    }
    assert(names.take(i as int) =~= names);
    Finding::Got(urls, n)
}

fn find_upstream_remote(
    has_upstream: bool,
    remotes: &Vec<String>,
    replies: &Vec<Result<String, String>>,
    at: usize,
) -> (f: Finding<Option<String>>)
    requires
        at <= replies@.len(),
    ensures
        match f {
            Finding::Ask(args) => upstream_remote_phase(
                has_upstream,
                remotes.deep_view(),
                reply_models(replies@),
                at as int,
            ) == Phase::<Option<Seq<char>>>::Ask(args.deep_view()),
            Finding::Got(name, n) => upstream_remote_phase(
                has_upstream,
                remotes.deep_view(),
                reply_models(replies@),
                at as int,
            ) == Phase::Got(crate::layout_store::text_of_option(name), n as int) && n
                <= replies@.len(),
        },
{
    let ghost models = reply_models(replies@);
    if !has_upstream {
        return Finding::Got(None, at);
    }
    if replies.len() <= at {
        return Finding::Ask(
            args4("rev-parse", "--abbrev-ref", "--symbolic-full-name", "@{u}"),
        );
    }
    assert(models[at as int] == reply_model(replies@[at as int]));
    let name = match &replies[at] {
        Ok(out) => remote_name_from_upstream_ref(trim(out.as_str()).as_str(), remotes),
        Err(_) => None,
    };
    Finding::Got(name, at + 1)
}

fn url_for(remotes: &Vec<String>, urls: &Vec<String>, name: &str) -> (r: Option<String>)
    ensures
        crate::layout_store::text_of_option(r) == url_of(
            remotes.deep_view(),
            urls.deep_view(),
            name@,
        ),
{
    let ghost names = remotes.deep_view();
    let ghost links = urls.deep_view();
    let mut i: usize = 0;
    assert(names.skip(0) =~= names);
    assert(links.skip(0) =~= links);
    while i < remotes.len() && i < urls.len()
        invariant
            i <= remotes@.len(),
            i <= urls@.len(),
            names == remotes.deep_view(),
            links == urls.deep_view(),
            url_of(names, links, name@) == url_of(names.skip(i as int), links.skip(i as int), name@),
        decreases remotes.len() - i,
    {
        assert(names.skip(i as int).drop_first() =~= names.skip(i + 1));
        assert(links.skip(i as int).drop_first() =~= links.skip(i + 1));
        if same(remotes[i].as_str(), name) {
            return Some(urls[i].clone());
        }
        i += 1;
    }
    None
}

fn find_repository_url(
    upstream_remote: &Option<String>,
    remotes: &Vec<String>,
    urls: &Vec<String>,
) -> (r: String)
    ensures
        r@ == repository_url(
            crate::layout_store::text_of_option(*upstream_remote),
            remotes.deep_view(),
            urls.deep_view(),
        ),
{
    let found = match upstream_remote {
        Some(name) => url_for(remotes, urls, name.as_str()),
        None => if remotes.len() > 0 {
            assert(remotes.deep_view()[0] == remotes@[0]@);
            url_for(remotes, urls, remotes[0].as_str())
        } else {
            None
        },
    };
    match found {
        Some(url) => if url.as_str().is_empty() {
            owned("—")
        } else {
            url
        },
        None => owned("—"),
    }
}

struct Ahead {
    count: usize,
    commits: Vec<LocalCommitEntry>,
    hint: String,
}

impl Ahead {
    spec fn model(self) -> AheadModel {
        AheadModel {
            count: self.count as int,
            commits: commit_lines(self.commits@),
            hint: self.hint@,
        }
    }
}

fn find_listed(
    count: usize,
    args: Vec<String>,
    hint: String,
    replies: &Vec<Result<String, String>>,
    at: usize,
) -> (f: Finding<Ahead>)
    requires
        at <= replies@.len(),
    ensures
        match f {
            Finding::Ask(asked) => listed_phase(
                count as int,
                args.deep_view(),
                hint@,
                reply_models(replies@),
                at as int,
            ) == Phase::<AheadModel>::Ask(asked.deep_view()),
            Finding::Got(ahead, n) => listed_phase(
                count as int,
                args.deep_view(),
                hint@,
                reply_models(replies@),
                at as int,
            ) == Phase::Got(ahead.model(), n as int) && n <= replies@.len(),
        },
{
    let ghost models = reply_models(replies@);
    if replies.len() <= at {
        return Finding::Ask(args);
    }
    assert(models[at as int] == reply_model(replies@[at as int]));
    let commits = match &replies[at] {
        Ok(out) => parse_compact_commit_lines(out.as_str()),
        Err(_) => {
            let none: Vec<LocalCommitEntry> = Vec::new();
            assert(commit_lines(none@) =~= Seq::empty());
            none
        },
    };
    Finding::Got(Ahead { count, commits, hint }, at + 1)
}

fn nothing_ahead(hint: &str) -> (a: Ahead)
    ensures
        a.model() == (AheadModel { count: 0, commits: Seq::empty(), hint: hint@ }),
{
    let commits: Vec<LocalCommitEntry> = Vec::new();
    assert(commit_lines(commits@) =~= Seq::empty());
    Ahead { count: 0, commits, hint: owned(hint) }
}

fn recent_log_args() -> (args: Vec<String>)
    ensures
        args.deep_view() == recent_args(),
{
    args4("log", "--max-count", "8", "--pretty=format:%h%x09%s")
}

fn find_ahead(has_upstream: bool, replies: &Vec<Result<String, String>>, at: usize) -> (f: Finding<
    Ahead,
>)
    requires
        at <= replies@.len(),
    ensures
        match f {
            Finding::Ask(args) => ahead_phase(has_upstream, reply_models(replies@), at as int)
                == Phase::<AheadModel>::Ask(args.deep_view()),
            Finding::Got(ahead, n) => ahead_phase(has_upstream, reply_models(replies@), at as int)
                == Phase::Got(ahead.model(), n as int) && n <= replies@.len(),
        },
{
    let ghost models = reply_models(replies@);
    if replies.len() <= at {
        if has_upstream {
            return Finding::Ask(args3("rev-list", "--count", "@{u}..HEAD"));
        } else {
            return Finding::Ask(args3("rev-list", "--count", "HEAD"));
        }
    }
    assert(models[at as int] == reply_model(replies@[at as int]));
    if !has_upstream {
        let n: usize = match &replies[at] {
            Ok(out) => count_in(out.as_str()),
            Err(_) => 0,
        };
        if n > 0 {
            return find_listed(
                n,
                recent_log_args(),
                owned("No upstream configured; showing recent local commits."),
                replies,
                at + 1,
            );
        }
        return Finding::Got(
            nothing_ahead("No commits yet; create one to start publishing."),
            at + 1,
        );
    }
    match &replies[at] {
        Ok(out) => {
            let n = count_in(out.as_str());
            if n > 0 {
                let mut args = recent_log_args();
                args.push(owned("@{u}..HEAD"));
                assert(args.deep_view() =~= recent_args().push("@{u}..HEAD"@));
                let hint = concat(decimal_usize(n).as_str(), " commit(s) ahead of upstream.");
                find_listed(n, args, hint, replies, at + 1)
            } else {
                Finding::Got(nothing_ahead("All commits are pushed."), at + 1)
            }
        },
        Err(_) => {
            if replies.len() - at <= 1 {
                return Finding::Ask(args3("rev-list", "--count", "HEAD"));
            }
            assert(models[at + 1] == reply_model(replies@[at + 1]));
            let n: usize = match &replies[at + 1] {
                Ok(out) => count_in(out.as_str()),
                Err(_) => 0,
            };
            if n > 0 {
                find_listed(
                    n,
                    recent_log_args(),
                    owned(
                        "Upstream configured but not published yet. Push to publish this branch.",
                    ),
                    replies,
                    at + 2,
                )
            } else {
                Finding::Got(nothing_ahead("All commits are pushed."), at + 2)
            }
        },
    }
}

struct Findings {
    label: String,
    has_upstream: bool,
    remotes: Vec<String>,
    url: String,
    ahead: Ahead,
}

impl Findings {
    spec fn model(self) -> FindingsModel {
        FindingsModel {
            label: self.label@,
            has_upstream: self.has_upstream,
            remotes: self.remotes.deep_view(),
            url: self.url@,
            ahead: self.ahead.model(),
        }
    }
}

fn find_all(replies: &Vec<Result<String, String>>, at: usize) -> (f: Finding<Findings>)
    requires
        at <= replies@.len(),
    ensures
        match f {
            Finding::Ask(args) => findings_phase(reply_models(replies@), at as int) == Phase::<
                FindingsModel,
            >::Ask(args.deep_view()),
            Finding::Got(found, n) => findings_phase(reply_models(replies@), at as int)
                == Phase::Got(found.model(), n as int) && n <= replies@.len(),
        },
{
    let (label, a) = match find_branch(replies, at) {
        Finding::Ask(args) => return Finding::Ask(args),
        Finding::Got(label, n) => (label, n),
    };
    let (has_upstream, b) = match find_upstream(label.as_str(), replies, a) {
        Finding::Ask(args) => return Finding::Ask(args),
        Finding::Got(found, n) => (found, n),
    };
    let (remotes, c) = match find_remotes(replies, b) {
        Finding::Ask(args) => return Finding::Ask(args),
        Finding::Got(remotes, n) => (remotes, n),
    };
    let (urls, d) = match find_urls(&remotes, replies, c) {
        Finding::Ask(args) => return Finding::Ask(args),
        Finding::Got(urls, n) => (urls, n),
    };
    let (upstream_remote, e) = match find_upstream_remote(has_upstream, &remotes, replies, d) {
        Finding::Ask(args) => return Finding::Ask(args),
        Finding::Got(name, n) => (name, n),
    };
    let (ahead, g) = match find_ahead(has_upstream, replies, e) {
        Finding::Ask(args) => return Finding::Ask(args),
        Finding::Got(ahead, n) => (ahead, n),
    };
    let url = find_repository_url(&upstream_remote, &remotes, &urls);
    Finding::Got(Findings { label, has_upstream, remotes, url, ahead }, g)
}

/// The name of a repository, given the last component of its path.
pub open spec fn named_repository(workspace_root: Seq<char>, file_name: Option<Seq<char>>) -> Seq<
    char,
> {
    match file_name {
        Some(name) => name,
        None => workspace_root,
    }
}

/// The name a repository is shown under: the last component of its path, or the path.
pub fn repository_name(workspace_root: &str) -> (name: String)
    ensures
        reads_alike(workspace_root@) ==> name@ == named_repository(
            workspace_root@,
            last_name(workspace_root@),
        ),
        name@ == workspace_root@ || contains_text(workspace_root@, name@),
{
    match file_name_of(workspace_root) {
        Some(name) => name,
        None => owned(workspace_root),
    }
}

/// The gathering of the state of a repository, given git's replies so far.
pub fn load_git_snapshot(
    workspace_root: &str,
    repo_name: &str,
    replies: &Vec<Result<String, String>>,
) -> (step: SnapshotStep)
    ensures
        step.model() == snapshot_step(workspace_root@, repo_name@, reply_models(replies@)),
{
    let ghost models = reply_models(replies@);
    if replies.len() == 0 {
        return SnapshotStep::Run(args2("rev-parse", "--is-inside-work-tree"));
    }
    assert(models[0] == reply_model(replies@[0]));
    match &replies[0] {
        Err(_) => {
            return SnapshotStep::Failed(
                owned("No Git repository found for the active workspace."),
            );
        },
        Ok(_) => {},
    }
    match find_all(replies, 1) {
        Finding::Ask(args) => SnapshotStep::Run(args),
        Finding::Got(found, at) => {
            if replies.len() <= at {
                return SnapshotStep::Run(
                    args3("status", "--porcelain=v1", "--untracked-files=all"),
                );
            }
            assert(models[at as int] == reply_model(replies@[at as int]));
            match &replies[at] {
                Err(err) => SnapshotStep::Failed(owned(err.as_str())),
                Ok(status) => match read_porcelain_entries(status.as_str()) {
                    None => SnapshotStep::Unreadable,
                    Some(files) => SnapshotStep::Loaded(
                        GitSnapshot {
                            workspace_root: owned(workspace_root),
                            repo_name: owned(repo_name),
                            repository_url: found.url,
                            branch_label: found.label,
                            push_hint: found.ahead.hint,
                            has_upstream: found.has_upstream,
                            ahead_count: found.ahead.count,
                            unpushed_commits: found.ahead.commits,
                            remotes: found.remotes,
                            files,
                        },
                    ),
                },
            }
        },
    }
}

} // verus!
