//! What the gathering of the state of a repository comes to.
use vstd::prelude::*;
#[allow(unused_imports)]
use crate::git_flow::remotes_in;
#[allow(unused_imports)]
use crate::git_laws::in_turn;
#[allow(unused_imports)]
use crate::git_snapshot::{
    ahead_phase, branch_phase, remotes_phase, repository_url, snapshot_step, upstream_phase,
    upstream_remote_phase, url_of, url_phase, urls_phase, AheadModel, Phase, SnapshotStepModel,
};
#[allow(unused_imports)]
use crate::git_status::{
    commits_in, entries_of, is_porcelain, number_or_zero, remote_of, CommitLine,
};
#[allow(unused_imports)]
use crate::lines::lines_of;
#[allow(unused_imports)]
use crate::number::decimal;
#[allow(unused_imports)]
use crate::text::{starts_with_text, trimmed};

verus! {

// ---------------------------------------------------------------------------------------------
// What groups of replies say
// ---------------------------------------------------------------------------------------------
/// The label of the branch that replies give: what is checked out, or the commit that is.
pub open spec fn label_said(group: Seq<Result<Seq<char>, Seq<char>>>, label: Seq<char>) -> bool {
    ||| group.len() == 1 && group[0] is Ok && label == trimmed(group[0]->Ok_0)
    ||| group.len() == 2 && group[0] is Err && group[1] is Ok && label == "detached@"@ + trimmed(
        group[1]->Ok_0,
    )
    ||| group.len() == 2 && group[0] is Err && group[1] is Err && label == "detached@"@ + trimmed(
        "unknown"@,
    )
}

/// Whether a reply holds anything.
pub open spec fn is_told(reply: Result<Seq<char>, Seq<char>>) -> bool {
    reply is Ok && trimmed(reply->Ok_0).len() > 0
}

/// Whether a branch tracks another, as replies give it: nothing is asked where no branch is
/// checked out, else for the remote and for the branch there.
pub open spec fn tracking_said(
    label: Seq<char>,
    group: Seq<Result<Seq<char>, Seq<char>>>,
    tracks: bool,
) -> bool {
    if starts_with_text(label, "detached@"@) {
        group.len() == 0 && !tracks
    } else {
        group.len() == 2 && tracks == (is_told(group[0]) && is_told(group[1]))
    }
}

/// The address of a remote that replies give: the one to push to, else the one to fetch from.
pub open spec fn address_said(
    group: Seq<Result<Seq<char>, Seq<char>>>,
    address: Seq<char>,
) -> bool {
    ||| group.len() == 1 && group[0] is Ok && address == trimmed(group[0]->Ok_0)
    ||| group.len() == 2 && group[0] is Err && group[1] is Ok && address == trimmed(
        group[1]->Ok_0,
    )
    ||| group.len() == 2 && group[0] is Err && group[1] is Err && address.len() == 0
}

/// The name of the remote that a branch tracks, as replies give it.
pub open spec fn remote_said(
    tracks: bool,
    remotes: Seq<Seq<char>>,
    group: Seq<Result<Seq<char>, Seq<char>>>,
    name: Option<Seq<char>>,
) -> bool {
    if !tracks {
        group.len() == 0 && name is None
    } else {
        &&& group.len() == 1
        &&& group[0] is Ok ==> name == remote_of(trimmed(group[0]->Ok_0), remotes)
        &&& group[0] is Err ==> name is None
    }
}

/// The commits in a reply.
pub open spec fn commits_said(reply: Result<Seq<char>, Seq<char>>) -> Seq<CommitLine> {
    if reply is Ok {
        commits_in(reply->Ok_0)
    } else {
        seq![]
    }
}

/// What replies say of a branch that can be compared with the one it tracks.
pub open spec fn compared_said(
    group: Seq<Result<Seq<char>, Seq<char>>>,
    ahead: AheadModel,
) -> bool {
    &&& group.len() > 0
    &&& group[0] is Ok
    &&& ahead.count == number_or_zero(group[0]->Ok_0)
    &&& if ahead.count > 0 {
        &&& group.len() == 2
        &&& ahead.commits == commits_said(group[1])
        &&& ahead.hint == decimal(ahead.count as nat) + " commit(s) ahead of upstream."@
    } else {
        &&& group.len() == 1
        &&& ahead.count == 0
        &&& ahead.commits.len() == 0
        &&& ahead.hint == "All commits are pushed."@
    }
}

/// What replies say of a branch whose upstream does not exist yet.
pub open spec fn unpublished_said(
    group: Seq<Result<Seq<char>, Seq<char>>>,
    ahead: AheadModel,
) -> bool {
    &&& group.len() > 1
    &&& group[0] is Err
    &&& ahead.count == if group[1] is Ok {
        number_or_zero(group[1]->Ok_0)
    } else {
        0
    }
    &&& if ahead.count > 0 {
        &&& group.len() == 3
        &&& ahead.commits == commits_said(group[2])
        &&& ahead.hint
            == "Upstream configured but not published yet. Push to publish this branch."@
    } else {
        &&& group.len() == 2
        &&& ahead.count == 0
        &&& ahead.commits.len() == 0
        &&& ahead.hint == "All commits are pushed."@
    }
}

/// What replies say of a branch that tracks none.
pub open spec fn local_said(group: Seq<Result<Seq<char>, Seq<char>>>, ahead: AheadModel) -> bool {
    &&& group.len() > 0
    &&& ahead.count == if group[0] is Ok {
        number_or_zero(group[0]->Ok_0)
    } else {
        0
    }
    &&& if ahead.count > 0 {
        &&& group.len() == 2
        &&& ahead.commits == commits_said(group[1])
        &&& ahead.hint == "No upstream configured; showing recent local commits."@
    } else {
        &&& group.len() == 1
        &&& ahead.count == 0
        &&& ahead.commits.len() == 0
        &&& ahead.hint == "No commits yet; create one to start publishing."@
    }
}

/// How far a branch is ahead, as replies give it.
pub open spec fn ahead_said(
    tracks: bool,
    group: Seq<Result<Seq<char>, Seq<char>>>,
    ahead: AheadModel,
) -> bool {
    if tracks {
        compared_said(group, ahead) || unpublished_said(group, ahead)
    } else {
        local_said(group, ahead)
    }
}

/// Whether an address is that of the first remote of a name, or a dash in place of a blank one.
pub open spec fn is_address_of(
    remotes: Seq<Seq<char>>,
    addresses: Seq<Seq<char>>,
    name: Seq<char>,
    url: Seq<char>,
) -> bool {
    if remotes.contains(name) {
        exists|j: int|
            {
                &&& 0 <= j < remotes.len()
                &&& #[trigger] remotes[j] == name
                &&& forall|i: int| 0 <= i < j ==> remotes[i] != name
                &&& url == if addresses[j].len() > 0 {
                    addresses[j]
                } else {
                    "—"@
                }
            }
    } else {
        url == "—"@
    }
}

/// Whether an address is that of a repository: that of the remote in use, else of the first one,
/// else a dash.
pub open spec fn is_repository_address(
    name: Option<Seq<char>>,
    remotes: Seq<Seq<char>>,
    addresses: Seq<Seq<char>>,
    url: Seq<char>,
) -> bool {
    if name is Some {
        is_address_of(remotes, addresses, name->0, url)
    } else if remotes.len() > 0 {
        is_address_of(remotes, addresses, remotes[0], url)
    } else {
        url == "—"@
    }
}

/// Whether a group of replies stands at a place.
pub open spec fn stands(
    replies: Seq<Result<Seq<char>, Seq<char>>>,
    at: int,
    group: Seq<Result<Seq<char>, Seq<char>>>,
) -> bool {
    0 <= at && at + group.len() <= replies.len() && replies.subrange(at, at + group.len()) == group
}

proof fn lemma_stands(
    replies: Seq<Result<Seq<char>, Seq<char>>>,
    at: int,
    group: Seq<Result<Seq<char>, Seq<char>>>,
)
    requires
        stands(replies, at, group),
    ensures
        forall|i: int| 0 <= i < group.len() ==> replies[at + i] == #[trigger] group[i],
{
    assert forall|i: int| 0 <= i < group.len() implies replies[at + i] == #[trigger] group[i] by {
        assert(replies.subrange(at, at + group.len())[i] == replies[at + i]);
    }
}

proof fn lemma_addresses(
    remotes: Seq<Seq<char>>,
    groups: Seq<Seq<Result<Seq<char>, Seq<char>>>>,
    addresses: Seq<Seq<char>>,
    replies: Seq<Result<Seq<char>, Seq<char>>>,
    at: int,
)
    requires
        groups.len() == remotes.len(),
        addresses.len() == remotes.len(),
        forall|i: int|
            0 <= i < groups.len() ==> address_said(#[trigger] groups[i], addresses[i]),
        stands(replies, at, in_turn(groups)),
    ensures
        urls_phase(remotes, replies, at) == Phase::Got(addresses, at + in_turn(groups).len()),
    decreases remotes.len(),
{
    if remotes.len() == 0 {
        assert(addresses =~= Seq::<Seq<char>>::empty());
    } else {
        let rest = in_turn(groups.drop_last());
        let last = groups.last();
        assert(in_turn(groups) == rest + last);
        assert(replies.subrange(at, at + rest.len()) =~= rest) by {
            assert forall|i: int| 0 <= i < rest.len() implies replies.subrange(
                at,
                at + rest.len(),
            )[i] == rest[i] by {
                assert(replies.subrange(at, at + in_turn(groups).len())[i] == (rest + last)[i]);
            }
        }
        assert forall|i: int| 0 <= i < groups.drop_last().len() implies address_said(
            #[trigger] groups.drop_last()[i],
            addresses.drop_last()[i],
        ) by {
            assert(groups[i] == groups.drop_last()[i]);
        }
        lemma_addresses(remotes.drop_last(), groups.drop_last(), addresses.drop_last(), replies, at);
        let next = at + rest.len();
        assert forall|i: int| 0 <= i < last.len() implies replies[next + i] == #[trigger] last[i] by {
            assert(replies.subrange(at, at + in_turn(groups).len())[rest.len() + i] == (rest + last)[
            rest.len() + i]);
        }
        assert(address_said(groups[groups.len() - 1], addresses[addresses.len() - 1]));
        assert(last[0] == replies[next]);
        if last.len() == 2 {
            assert(last[1] == replies[next + 1]);
        }
        assert(url_phase(remotes.last(), replies, next) == Phase::Got(
            addresses.last(),
            next + last.len(),
        )) by {
            if last.len() == 2 && last[1] is Err {
                assert(addresses.last() =~= Seq::<char>::empty());
            }
        }
        assert(addresses.drop_last().push(addresses.last()) =~= addresses);
    }
}

proof fn lemma_url_of(remotes: Seq<Seq<char>>, addresses: Seq<Seq<char>>, name: Seq<char>)
    requires
        addresses.len() == remotes.len(),
    ensures
        url_of(remotes, addresses, name) is Some <==> remotes.contains(name),
        url_of(remotes, addresses, name) is Some ==> exists|j: int|
            {
                &&& 0 <= j < remotes.len()
                &&& #[trigger] remotes[j] == name
                &&& forall|i: int| 0 <= i < j ==> remotes[i] != name
                &&& url_of(remotes, addresses, name)->0 == addresses[j]
            },
    decreases remotes.len(),
{
    if remotes.len() > 0 {
        if remotes[0] == name {
            assert(remotes.contains(name));
        } else {
            let rest = remotes.drop_first();
            lemma_url_of(rest, addresses.drop_first(), name);
            if rest.contains(name) {
                let j = choose|j: int|
                    {
                        &&& 0 <= j < rest.len()
                        &&& #[trigger] rest[j] == name
                        &&& forall|i: int| 0 <= i < j ==> rest[i] != name
                        &&& url_of(rest, addresses.drop_first(), name)->0
                            == addresses.drop_first()[j]
                    };
                assert(remotes[j + 1] == name);
                assert forall|i: int| 0 <= i < j + 1 implies remotes[i] != name by {
                    if i > 0 {
                        assert(rest[i - 1] == remotes[i]);
                    }
                }
            } else if remotes.contains(name) {
                let k = remotes.index_of(name);
                assert(rest[k - 1] == name);
            }
        }
    }
}

proof fn lemma_repository_url(
    name: Option<Seq<char>>,
    remotes: Seq<Seq<char>>,
    addresses: Seq<Seq<char>>,
)
    requires
        addresses.len() == remotes.len(),
    ensures
        is_repository_address(name, remotes, addresses, repository_url(name, remotes, addresses)),
{
    if name is Some {
        lemma_url_of(remotes, addresses, name->0);
    } else if remotes.len() > 0 {
        lemma_url_of(remotes, addresses, remotes[0]);
    }
}

/// A repository whose replies come in order is shown as the replies give it: the branch or the
/// commit that is checked out, whether it tracks another, the remotes with the address in use,
/// how far it is ahead and by which commits, and the files of the status listing.
pub proof fn lemma_snapshot_shown(
    workspace_root: Seq<char>,
    repo_name: Seq<char>,
    inside: Seq<char>,
    branch: Seq<Result<Seq<char>, Seq<char>>>,
    config: Seq<Result<Seq<char>, Seq<char>>>,
    listed: Result<Seq<char>, Seq<char>>,
    groups: Seq<Seq<Result<Seq<char>, Seq<char>>>>,
    upstream: Seq<Result<Seq<char>, Seq<char>>>,
    counts: Seq<Result<Seq<char>, Seq<char>>>,
    status: Seq<char>,
    label: Seq<char>,
    tracks: bool,
    addresses: Seq<Seq<char>>,
    name: Option<Seq<char>>,
    ahead: AheadModel,
)
    requires
        label_said(branch, label),
        tracking_said(label, config, tracks),
        groups.len() == remotes_in(listed).len(),
        addresses.len() == remotes_in(listed).len(),
        forall|i: int|
            0 <= i < groups.len() ==> address_said(#[trigger] groups[i], addresses[i]),
        remote_said(tracks, remotes_in(listed), upstream, name),
        ahead_said(tracks, counts, ahead),
        is_porcelain(lines_of(status)),
    ensures
        ({
            let replies = seq![Ok(inside)] + branch + config + seq![listed] + in_turn(groups)
                + upstream + counts + seq![Ok(status)];
            let step = snapshot_step(workspace_root, repo_name, replies);
            &&& step is Loaded
            &&& step->Loaded_0.workspace_root == workspace_root
            &&& step->Loaded_0.repo_name == repo_name
            &&& step->Loaded_0.branch_label == label
            &&& step->Loaded_0.has_upstream == tracks
            &&& step->Loaded_0.remotes == remotes_in(listed)
            &&& is_repository_address(
                name,
                remotes_in(listed),
                addresses,
                step->Loaded_0.repository_url,
            )
            &&& step->Loaded_0.ahead_count == ahead.count
            &&& step->Loaded_0.unpushed_commits == ahead.commits
            &&& step->Loaded_0.push_hint == ahead.hint
            &&& step->Loaded_0.files == entries_of(lines_of(status))
        }),
{
    let lead: Seq<Result<Seq<char>, Seq<char>>> = seq![Ok(inside)];
    let tail: Seq<Result<Seq<char>, Seq<char>>> = seq![Ok(status)];
    let urls = in_turn(groups);
    let replies = lead + branch + config + seq![listed] + urls + upstream + counts + tail;
    let a = 1 + branch.len() as int;
    let b = a + config.len();
    let c = b + 1;
    let d = c + urls.len();
    let e = d + upstream.len();
    let f = e + counts.len();
    assert(replies.len() == f + 1);
    assert(replies.subrange(1, a) =~= branch);
    assert(replies.subrange(a, b) =~= config);
    assert(replies[b] == listed);
    assert(replies.subrange(c, d) =~= urls);
    assert(replies.subrange(d, e) =~= upstream);
    assert(replies.subrange(e, f) =~= counts);
    assert(replies[f] == tail[0]);
    lemma_stands(replies, 1, branch);
    lemma_stands(replies, a, config);
    lemma_stands(replies, d, upstream);
    lemma_stands(replies, e, counts);
    assert(branch[0] == replies[1]);
    if branch.len() == 2 {
        assert(branch[1] == replies[2]);
    }
    assert(branch_phase(replies, 1) == Phase::Got(label, a));
    if config.len() == 2 {
        assert(config[0] == replies[a]);
        assert(config[1] == replies[a + 1]);
    }
    assert(upstream_phase(label, replies, a) == Phase::Got(tracks, b));
    assert(remotes_phase(replies, b) == Phase::Got(remotes_in(listed), c));
    lemma_addresses(remotes_in(listed), groups, addresses, replies, c);
    if upstream.len() == 1 {
        assert(upstream[0] == replies[d]);
    }
    assert(upstream_remote_phase(tracks, remotes_in(listed), replies, d) == Phase::Got(name, e));
    assert(counts[0] == replies[e]);
    if counts.len() > 1 {
        assert(counts[1] == replies[e + 1]);
    }
    if counts.len() > 2 {
        assert(counts[2] == replies[e + 2]);
    }
    assert(ahead_phase(tracks, replies, e) == Phase::Got(ahead, f)) by {
        if ahead.count <= 0 {
            assert(ahead.commits =~= Seq::<CommitLine>::empty());
        } else {
            assert(seq![] =~= Seq::<CommitLine>::empty());
        }
    }
    lemma_repository_url(name, remotes_in(listed), addresses);
}

// ---------------------------------------------------------------------------------------------
// What is asked
// ---------------------------------------------------------------------------------------------
/// Git is asked first whether there is a repository, then for the branch, and for the commit where
/// no branch is checked out; for a branch, for the remote and the branch it tracks; then for the
/// remotes. Where there is no repository nothing more is asked.
pub proof fn lemma_snapshot_opening(
    workspace_root: Seq<char>,
    repo_name: Seq<char>,
    inside: Seq<char>,
    branch: Seq<char>,
    remote: Result<Seq<char>, Seq<char>>,
    merge: Result<Seq<char>, Seq<char>>,
    err: Seq<char>,
)
    ensures
        snapshot_step(workspace_root, repo_name, seq![]) == SnapshotStepModel::Run(
            seq!["rev-parse"@, "--is-inside-work-tree"@],
        ),
        snapshot_step(workspace_root, repo_name, seq![Err(err)]) == SnapshotStepModel::Failed(
            "No Git repository found for the active workspace."@,
        ),
        snapshot_step(workspace_root, repo_name, seq![Ok(inside)]) == SnapshotStepModel::Run(
            seq!["symbolic-ref"@, "--short"@, "HEAD"@],
        ),
        snapshot_step(workspace_root, repo_name, seq![Ok(inside), Err(err)])
            == SnapshotStepModel::Run(seq!["rev-parse"@, "--short"@, "HEAD"@]),
        snapshot_step(workspace_root, repo_name, seq![Ok(inside), Err(err), Ok(branch)])
            == SnapshotStepModel::Run(seq!["remote"@]),
        snapshot_step(workspace_root, repo_name, seq![Ok(inside), Err(err), Err(branch)])
            == SnapshotStepModel::Run(seq!["remote"@]),
        !starts_with_text(trimmed(branch), "detached@"@) ==> {
            &&& snapshot_step(workspace_root, repo_name, seq![Ok(inside), Ok(branch)])
                == SnapshotStepModel::Run(
                seq!["config"@, "--get"@, "branch."@ + trimmed(branch) + ".remote"@],
            )
            &&& snapshot_step(workspace_root, repo_name, seq![Ok(inside), Ok(branch), remote])
                == SnapshotStepModel::Run(
                seq!["config"@, "--get"@, "branch."@ + trimmed(branch) + ".merge"@],
            )
            &&& snapshot_step(
                workspace_root,
                repo_name,
                seq![Ok(inside), Ok(branch), remote, merge],
            ) == SnapshotStepModel::Run(seq!["remote"@])
        },
{
    assert(("detached@"@ + trimmed(branch)).take("detached@"@.len() as int) =~= "detached@"@);
    assert(("detached@"@ + trimmed("unknown"@)).take("detached@"@.len() as int) =~= "detached@"@);
}

/// Once the addresses of the first remotes are known, the next is asked for one that is pushed to,
/// and where it has none, for the one that is fetched from.
pub proof fn lemma_snapshot_addresses(
    workspace_root: Seq<char>,
    repo_name: Seq<char>,
    inside: Seq<char>,
    branch: Seq<Result<Seq<char>, Seq<char>>>,
    config: Seq<Result<Seq<char>, Seq<char>>>,
    listed: Result<Seq<char>, Seq<char>>,
    groups: Seq<Seq<Result<Seq<char>, Seq<char>>>>,
    label: Seq<char>,
    tracks: bool,
    addresses: Seq<Seq<char>>,
    err: Seq<char>,
)
    requires
        label_said(branch, label),
        tracking_said(label, config, tracks),
        groups.len() < remotes_in(listed).len(),
        addresses.len() == groups.len(),
        forall|i: int|
            0 <= i < groups.len() ==> address_said(#[trigger] groups[i], addresses[i]),
    ensures
        ({
            let replies = seq![Ok(inside)] + branch + config + seq![listed] + in_turn(groups);
            let next = remotes_in(listed)[groups.len() as int];
            &&& snapshot_step(workspace_root, repo_name, replies) == SnapshotStepModel::Run(
                seq!["remote"@, "get-url"@, "--push"@, next],
            )
            &&& snapshot_step(workspace_root, repo_name, replies.push(Err(err)))
                == SnapshotStepModel::Run(seq!["remote"@, "get-url"@, next])
        }),
{
    let replies = seq![Ok(inside)] + branch + config + seq![listed] + in_turn(groups);
    lemma_known(inside, branch, config, listed, groups, label, tracks, addresses, seq![]);
    lemma_known(inside, branch, config, listed, groups, label, tracks, addresses, seq![Err(err)]);
    assert(replies + seq![] =~= replies);
    assert(replies + seq![Err(err)] =~= replies.push(Err(err)));
    let c = 1 + branch.len() as int + config.len() + 1;
    let k = groups.len() as int;
    lemma_asks_address(remotes_in(listed), k, addresses, replies, c, replies.len() as int);
    lemma_asks_address(
        remotes_in(listed),
        k,
        addresses,
        replies.push(Err(err)),
        c,
        replies.len() as int,
    );
}

proof fn lemma_asks_address(
    remotes: Seq<Seq<char>>,
    k: int,
    addresses: Seq<Seq<char>>,
    replies: Seq<Result<Seq<char>, Seq<char>>>,
    at: int,
    next: int,
)
    requires
        0 <= k < remotes.len(),
        urls_phase(remotes.take(k), replies, at) == Phase::Got(addresses, next),
        url_phase(remotes[k], replies, next) is Ask,
    ensures
        urls_phase(remotes, replies, at) is Ask,
        urls_phase(remotes, replies, at)->Ask_0 == url_phase(remotes[k], replies, next)->Ask_0,
    decreases remotes.len(),
{
    if k == remotes.len() - 1 {
        assert(remotes.drop_last() =~= remotes.take(k));
    } else {
        assert(remotes.drop_last().take(k) =~= remotes.take(k));
        lemma_asks_address(remotes.drop_last(), k, addresses, replies, at, next);
    }
}

proof fn lemma_known(
    inside: Seq<char>,
    branch: Seq<Result<Seq<char>, Seq<char>>>,
    config: Seq<Result<Seq<char>, Seq<char>>>,
    listed: Result<Seq<char>, Seq<char>>,
    groups: Seq<Seq<Result<Seq<char>, Seq<char>>>>,
    label: Seq<char>,
    tracks: bool,
    addresses: Seq<Seq<char>>,
    tail: Seq<Result<Seq<char>, Seq<char>>>,
)
    requires
        label_said(branch, label),
        tracking_said(label, config, tracks),
        groups.len() <= remotes_in(listed).len(),
        addresses.len() == groups.len(),
        forall|i: int|
            0 <= i < groups.len() ==> address_said(#[trigger] groups[i], addresses[i]),
    ensures
        ({
            let replies = seq![Ok(inside)] + branch + config + seq![listed] + in_turn(groups)
                + tail;
            let a = 1 + branch.len() as int;
            let b = a + config.len();
            &&& replies[0] is Ok
            &&& branch_phase(replies, 1) == Phase::Got(label, a)
            &&& upstream_phase(label, replies, a) == Phase::Got(tracks, b)
            &&& remotes_phase(replies, b) == Phase::Got(remotes_in(listed), b + 1)
            &&& urls_phase(
                remotes_in(listed).take(groups.len() as int),
                replies,
                b + 1,
            ) == Phase::Got(addresses, b + 1 + in_turn(groups).len())
            &&& replies.len() == b + 1 + in_turn(groups).len() + tail.len()
            &&& forall|i: int|
                0 <= i < tail.len() ==> replies[b + 1 + in_turn(groups).len() + i]
                    == #[trigger] tail[i]
        }),
{
    let lead: Seq<Result<Seq<char>, Seq<char>>> = seq![Ok(inside)];
    let urls = in_turn(groups);
    let replies = lead + branch + config + seq![listed] + urls + tail;
    let a = 1 + branch.len() as int;
    let b = a + config.len();
    let c = b + 1;
    let d = c + urls.len();
    assert(replies.subrange(1, a) =~= branch);
    assert(replies.subrange(a, b) =~= config);
    assert(replies[b] == listed);
    assert(replies.subrange(c, d) =~= urls);
    lemma_stands(replies, 1, branch);
    lemma_stands(replies, a, config);
    assert(branch[0] == replies[1]);
    if branch.len() == 2 {
        assert(branch[1] == replies[2]);
    }
    if config.len() == 2 {
        assert(config[0] == replies[a]);
        assert(config[1] == replies[a + 1]);
    }
    lemma_addresses(remotes_in(listed).take(groups.len() as int), groups, addresses, replies, c);
}

/// Once all addresses are known, a branch that tracks another is asked for its name and for the
/// number of commits ahead of it, then, where there are any, for their list; one whose upstream
/// does not exist yet, and one without, is counted as a whole. The status listing is asked for
/// last, and where it cannot be had the gathering fails with its error.
pub proof fn lemma_snapshot_closing(
    workspace_root: Seq<char>,
    repo_name: Seq<char>,
    inside: Seq<char>,
    branch: Seq<Result<Seq<char>, Seq<char>>>,
    config: Seq<Result<Seq<char>, Seq<char>>>,
    listed: Result<Seq<char>, Seq<char>>,
    groups: Seq<Seq<Result<Seq<char>, Seq<char>>>>,
    label: Seq<char>,
    tracks: bool,
    addresses: Seq<Seq<char>>,
    upstream: Result<Seq<char>, Seq<char>>,
    count: Seq<char>,
    log: Result<Seq<char>, Seq<char>>,
    err: Seq<char>,
)
    requires
        label_said(branch, label),
        tracking_said(label, config, tracks),
        groups.len() == remotes_in(listed).len(),
        addresses.len() == groups.len(),
        forall|i: int|
            0 <= i < groups.len() ==> address_said(#[trigger] groups[i], addresses[i]),
    ensures
        ({
            let replies = seq![Ok(inside)] + branch + config + seq![listed] + in_turn(groups);
            let asks = |tail: Seq<Result<Seq<char>, Seq<char>>>|
                snapshot_step(workspace_root, repo_name, replies + tail);
            let recent = seq!["log"@, "--max-count"@, "8"@, "--pretty=format:%h%x09%s"@];
            let status = SnapshotStepModel::Run(
                seq!["status"@, "--porcelain=v1"@, "--untracked-files=all"@],
            );
            let whole = SnapshotStepModel::Run(seq!["rev-list"@, "--count"@, "HEAD"@]);
            let some = number_or_zero(count) > 0;
            &&& tracks ==> {
                &&& asks(seq![]) == SnapshotStepModel::Run(
                    seq!["rev-parse"@, "--abbrev-ref"@, "--symbolic-full-name"@, "@{u}"@],
                )
                &&& asks(seq![upstream]) == SnapshotStepModel::Run(
                    seq!["rev-list"@, "--count"@, "@{u}..HEAD"@],
                )
                &&& asks(seq![upstream, Ok(count)]) == if some {
                    SnapshotStepModel::Run(recent.push("@{u}..HEAD"@))
                } else {
                    status
                }
                &&& some ==> asks(seq![upstream, Ok(count), log]) == status
                &&& some ==> asks(seq![upstream, Ok(count), log, Err(err)])
                    == SnapshotStepModel::Failed(err)
                &&& asks(seq![upstream, Err(err)]) == whole
                &&& asks(seq![upstream, Err(err), Ok(count)]) == if some {
                    SnapshotStepModel::Run(recent)
                } else {
                    status
                }
                &&& asks(seq![upstream, Err(err), Err(err)]) == status
                &&& some ==> asks(seq![upstream, Err(err), Ok(count), log]) == status
            }
            &&& !tracks ==> {
                &&& asks(seq![]) == whole
                &&& asks(seq![Ok(count)]) == if some {
                    SnapshotStepModel::Run(recent)
                } else {
                    status
                }
                &&& asks(seq![Err(err)]) == status
                &&& some ==> asks(seq![Ok(count), log]) == status
                &&& some ==> asks(seq![Ok(count), log, Err(err)]) == SnapshotStepModel::Failed(err)
            }
        }),
{
    assert(remotes_in(listed).take(groups.len() as int) =~= remotes_in(listed));
    lemma_known(
        inside,
        branch,
        config,
        listed,
        groups,
        label,
        tracks,
        addresses,
        seq![],
    );
    lemma_known(
        inside,
        branch,
        config,
        listed,
        groups,
        label,
        tracks,
        addresses,
        seq![upstream],
    );
    lemma_known(
        inside,
        branch,
        config,
        listed,
        groups,
        label,
        tracks,
        addresses,
        seq![upstream, Ok(count)],
    );
    lemma_known(
        inside,
        branch,
        config,
        listed,
        groups,
        label,
        tracks,
        addresses,
        seq![upstream, Ok(count), log],
    );
    lemma_known(
        inside,
        branch,
        config,
        listed,
        groups,
        label,
        tracks,
        addresses,
        seq![upstream, Ok(count), log, Err(err)],
    );
    lemma_known(
        inside,
        branch,
        config,
        listed,
        groups,
        label,
        tracks,
        addresses,
        seq![upstream, Err(err)],
    );
    lemma_known(
        inside,
        branch,
        config,
        listed,
        groups,
        label,
        tracks,
        addresses,
        seq![upstream, Err(err), Ok(count)],
    );
    lemma_known(
        inside,
        branch,
        config,
        listed,
        groups,
        label,
        tracks,
        addresses,
        seq![upstream, Err(err), Err(err)],
    );
    lemma_known(
        inside,
        branch,
        config,
        listed,
        groups,
        label,
        tracks,
        addresses,
        seq![upstream, Err(err), Ok(count), log],
    );
    lemma_known(
        inside,
        branch,
        config,
        listed,
        groups,
        label,
        tracks,
        addresses,
        seq![Ok(count)],
    );
    lemma_known(
        inside,
        branch,
        config,
        listed,
        groups,
        label,
        tracks,
        addresses,
        seq![Err(err)],
    );
    lemma_known(
        inside,
        branch,
        config,
        listed,
        groups,
        label,
        tracks,
        addresses,
        seq![Ok(count), log],
    );
    lemma_known(
        inside,
        branch,
        config,
        listed,
        groups,
        label,
        tracks,
        addresses,
        seq![Ok(count), log, Err(err)],
    );
    assert(seq!["log"@, "--max-count"@, "8"@, "--pretty=format:%h%x09%s"@]
        =~= crate::git_snapshot::recent_args());
}

} // verus!
