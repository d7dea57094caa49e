use enzim_ui::git_flow::{line_delta_fits, push_environment, PushAnswers};
use enzim_ui::git_flow::{
    line_delta_args, push_args, push_outcome_of, run_branch_action, run_commit_selected,
    run_configure_upstream, run_fetch, run_initialize_repository, run_pull_ff_only,
    selected_line_delta, selected_paths, selected_untracked_paths, upstream_result, BranchAction,
    GitStep, InitRepoOptions, InitStep, PushOutcome, UpstreamOptions, UpstreamStep,
};
use enzim_ui::git_snapshot::{load_git_snapshot, repository_name, SnapshotStep};
use enzim_ui::git_status::{
    count_file_lines_for_untracked, count_in, credentials_required, numstat_totals_fit,
    parse_compact_commit_lines, parse_local_branches, parse_numstat_totals, parse_porcelain_entries, read_porcelain_entries,
    remote_name_from_upstream_ref, GitFileEntry,
};

fn ok(s: &str) -> Result<String, String> {
    Ok(s.to_string())
}

fn err(s: &str) -> Result<String, String> {
    Err(s.to_string())
}

fn done(step: GitStep) -> Result<String, String> {
    match step {
        GitStep::Done(result) => result,
        other => panic!("{other:?}"),
    }
}

fn run(step: GitStep) -> Vec<String> {
    match step {
        GitStep::Run(args) => args,
        other => panic!("{other:?}"),
    }
}

#[test]
fn fetch_prunes() {
    assert_eq!(run(run_fetch(&vec![])), vec!["fetch", "--prune"]);
    assert_eq!(done(run_fetch(&vec![ok("")])), ok("Fetch completed: Fetch completed."));
    assert_eq!(done(run_fetch(&vec![ok("From x\nmore")])), ok("Fetch completed: From x"));
    assert_eq!(done(run_fetch(&vec![err("offline")])), err("Fetch failed: offline"));
}

#[test]
fn a_dirty_tree_is_not_pulled_into() {
    assert_eq!(run(run_pull_ff_only(&vec![])), vec!["status", "--porcelain"]);
    assert_eq!(
        done(run_pull_ff_only(&vec![ok(" M a")])),
        err("Pull blocked: working tree has local changes. Commit/stash them first, then retry.")
    );
    assert_eq!(run(run_pull_ff_only(&vec![ok(" ")])), vec!["pull", "--ff-only"]);
    assert_eq!(
        done(run_pull_ff_only(&vec![ok(""), err("fatal: Not possible to fast-forward")])),
        err("Pull requires merge/rebase (non fast-forward). Use terminal to resolve or rebase, then refresh.")
    );
    assert_eq!(done(run_pull_ff_only(&vec![ok(""), err("x")])), err("Pull failed: x"));
    assert_eq!(
        done(run_pull_ff_only(&vec![ok(""), ok("Updating")])),
        ok("Pull completed: Updating")
    );
}

#[test]
fn branches_are_switched_and_created() {
    let switch = BranchAction::Switch("dev".to_string());
    assert_eq!(run(run_branch_action(&switch, &vec![])), vec!["switch", "dev"]);
    assert_eq!(run(run_branch_action(&switch, &vec![err("old git")])), vec!["checkout", "dev"]);
    assert_eq!(
        done(run_branch_action(&switch, &vec![err("old git"), err("no")])),
        err("Branch switch failed: no")
    );
    assert_eq!(done(run_branch_action(&switch, &vec![ok("")])), ok("Switched to branch: dev"));
    let create = BranchAction::Create("dev".to_string());
    assert_eq!(run(run_branch_action(&create, &vec![])), vec!["switch", "-c", "dev"]);
    assert_eq!(run(run_branch_action(&create, &vec![ok("")])), vec!["remote"]);
    assert_eq!(
        run(run_branch_action(&create, &vec![ok(""), ok("up\norigin\n")])),
        vec!["config", "branch.dev.remote", "origin"]
    );
    assert_eq!(
        run(run_branch_action(&create, &vec![ok(""), ok("up\n"), ok("")])),
        vec!["config", "branch.dev.merge", "refs/heads/dev"]
    );
    assert_eq!(
        done(run_branch_action(&create, &vec![ok(""), ok("up"), ok(""), ok("")])),
        ok("Created and switched to branch: dev (upstream configured automatically)")
    );
    assert_eq!(
        done(run_branch_action(&create, &vec![ok(""), ok("")])),
        ok("Created and switched to branch: dev. No remote found, so upstream was not set.")
    );
    assert_eq!(
        done(run_branch_action(&BranchAction::Create(" ".to_string()), &vec![])),
        err("Branch creation failed: branch name is required.")
    );
    assert_eq!(
        done(run_branch_action(&BranchAction::Switch(" ".to_string()), &vec![])),
        err("Branch switch failed: branch name is required.")
    );
}

#[test]
fn credentials_are_asked_for_once() {
    let denied = err("fatal: Authentication failed for x");
    assert!(credentials_required("fatal: authentication failed for x"));
    assert!(!credentials_required("fatal: Authentication failed for x"));
    assert!(matches!(push_outcome_of(false, &denied), PushOutcome::AuthRequired(_)));
    match push_outcome_of(true, &denied) {
        PushOutcome::Failure(text) => assert_eq!(text, "Push failed: authentication was rejected."),
        other => panic!("{other:?}"),
    }
    match push_outcome_of(false, &err("! [rejected] main")) {
        PushOutcome::Failure(text) => {
            assert_eq!(text, "Push rejected (non-fast-forward). Pull/rebase and retry push.")
        }
        other => panic!("{other:?}"),
    }
    match push_outcome_of(false, &err("branch has no upstream branch")) {
        PushOutcome::Failure(text) => assert_eq!(
            text,
            "Push failed: no upstream remote configured. Set upstream and retry."
        ),
        other => panic!("{other:?}"),
    }
    assert!(matches!(push_outcome_of(false, &ok("")), PushOutcome::Success(_)));
    assert_eq!(push_args(&vec!["--porcelain".to_string()]), vec!["push", "--porcelain"]);
}

#[test]
fn upstream_is_configured() {
    let options = UpstreamOptions {
        remote_name: " origin ".to_string(),
        remote_url: "u".to_string(),
        branch_name: "main".to_string(),
    };
    let args = |step| match step {
        UpstreamStep::Run(args) => args,
        other => panic!("{other:?}"),
    };
    assert_eq!(args(run_configure_upstream(&options, &vec![])), vec!["remote"]);
    assert_eq!(
        args(run_configure_upstream(&options, &vec![ok("")])),
        vec!["remote", "add", "origin", "u"]
    );
    assert_eq!(
        args(run_configure_upstream(&options, &vec![ok("origin")])),
        vec!["remote", "set-url", "origin", "u"]
    );
    match run_configure_upstream(&options, &vec![ok("origin"), ok("")]) {
        UpstreamStep::Push(args) => {
            assert_eq!(args, vec!["--porcelain", "--set-upstream", "origin", "main"])
        }
        other => panic!("{other:?}"),
    }
    let bare = UpstreamOptions {
        remote_name: "origin".to_string(),
        remote_url: "".to_string(),
        branch_name: "main".to_string(),
    };
    match run_configure_upstream(&bare, &vec![ok("")]) {
        UpstreamStep::Failed(text) => assert_eq!(
            text,
            "Upstream setup failed: remote URL is required for a new remote."
        ),
        other => panic!("{other:?}"),
    }
    assert_eq!(
        upstream_result(&options, &PushOutcome::Success("x".to_string())),
        ok("Upstream configured: main -> origin/main")
    );
    assert_eq!(
        upstream_result(&options, &PushOutcome::Failure("x".to_string())),
        err("Upstream setup failed: x")
    );
}

#[test]
fn only_selected_files_are_committed() {
    let selected = vec!["a.rs".to_string(), "gone.rs".to_string()];
    assert_eq!(
        run(run_commit_selected(&selected, "msg", &vec![])),
        vec!["status", "--porcelain=v1", "--untracked-files=all", "--", "a.rs", "gone.rs"]
    );
    let mut replies = vec![ok(" M a.rs\n")];
    assert_eq!(run(run_commit_selected(&selected, "msg", &replies)), vec!["add", "--", "a.rs"]);
    replies.push(ok(""));
    assert_eq!(
        run(run_commit_selected(&selected, "msg", &replies)),
        vec!["status", "--porcelain=v1", "--untracked-files=all", "--", "a.rs"]
    );
    replies.push(ok("M  a.rs\n"));
    assert_eq!(
        run(run_commit_selected(&selected, "msg", &replies)),
        vec!["commit", "-m", "msg", "--", "a.rs"]
    );
    replies.push(ok("[main 1] msg"));
    assert_eq!(
        done(run_commit_selected(&selected, "msg", &replies)),
        ok("Commit succeeded: [main 1] msg (ignored 1 stale selection(s)).")
    );
    replies.pop();
    replies.push(err("nothing to commit"));
    assert_eq!(
        done(run_commit_selected(&selected, "msg", &replies)),
        err("Nothing to commit for selected files.")
    );
    assert_eq!(
        done(run_commit_selected(&vec![], "msg", &vec![])),
        err("Select at least one file to commit.")
    );
    assert_eq!(
        done(run_commit_selected(&selected, "msg", &vec![ok("")])),
        err("Selected files no longer have changes. Refresh Git status and try again.")
    );
    assert!(matches!(
        run_commit_selected(&selected, "msg", &vec![ok("?")]),
        GitStep::Done(_) | GitStep::Unreadable
    ));
}

#[test]
fn an_existing_repository_is_left_alone() {
    let options = InitRepoOptions {
        branch: "main".to_string(),
        create_gitignore: true,
        create_initial_commit: true,
        commit_message: "first".to_string(),
    };
    assert!(matches!(
        run_initialize_repository(true, true, &options, &vec![]),
        InitStep::Done(Err(_))
    ));
    assert!(matches!(
        run_initialize_repository(false, false, &options, &vec![]),
        InitStep::Done(Err(_))
    ));
    let args = |step| match step {
        InitStep::Run(args) => args,
        other => panic!("{other:?}"),
    };
    assert_eq!(
        args(run_initialize_repository(true, false, &options, &vec![])),
        vec!["init", "--initial-branch", "main"]
    );
    assert_eq!(
        args(run_initialize_repository(true, false, &options, &vec![err("old"), ok("")])),
        vec!["symbolic-ref", "HEAD", "refs/heads/main"]
    );
    assert!(matches!(
        run_initialize_repository(true, false, &options, &vec![ok("")]),
        InitStep::WriteGitignore(_)
    ));
    assert_eq!(
        args(run_initialize_repository(true, false, &options, &vec![ok(""), ok("")])),
        vec!["add", "-A"]
    );
    assert_eq!(
        args(run_initialize_repository(true, false, &options, &vec![ok(""), ok(""), ok("")])),
        vec!["commit", "-m", "first"]
    );
    match run_initialize_repository(
        true,
        false,
        &options,
        &vec![ok(""), ok(""), ok(""), err("nothing to commit")],
    ) {
        InitStep::Done(result) => assert_eq!(
            result,
            ok("Repository initialized. No files to commit yet; add files and create your first commit.")
        ),
        other => panic!("{other:?}"),
    }
}

fn file(status: &str, path: &str, selected: bool) -> GitFileEntry {
    GitFileEntry { status: status.to_string(), path: path.to_string(), selected }
}

#[test]
fn status_listings_are_read() {
    let entries = parse_porcelain_entries(" M a.rs\n?? b c.rs\nR  old.rs -> new.rs\n");
    assert_eq!(entries.len(), 3);
    assert_eq!(entries[0].path, "a.rs");
    assert_eq!(entries[1].path, "b c.rs");
    assert_eq!(entries[1].status, "??");
    assert_eq!(entries[2].path, "new.rs");
    assert_eq!(read_porcelain_entries(" M a.rs\n").unwrap().len(), 1);
}

#[test]
fn selections_are_counted() {
    let entries = vec![file("M", "a", true), file("??", "b", true), file("M", "c", false)];
    assert_eq!(selected_paths(&entries), vec!["a", "b"]);
    assert_eq!(selected_untracked_paths(&entries), vec!["b"]);
    assert!(line_delta_args(&entries).unwrap().ends_with(&["a".to_string(), "b".to_string()]));
    assert!(line_delta_args(&vec![file("M", "a", false)]).is_none());
    assert_eq!(
        selected_line_delta(&ok("3\t1\ta\n-\t-\tbin\n"), &vec![5, 2]),
        Ok((10, 1))
    );
    assert_eq!(
        selected_line_delta(&err("fatal: bad revision 'HEAD'"), &vec![4]),
        Ok((4, 0))
    );
    assert_eq!(selected_line_delta(&err("x"), &vec![]), Err("x".to_string()));
    assert_eq!(parse_numstat_totals("3\t1\ta\n2\t2\tb\n"), (5, 3));
    assert_eq!(count_file_lines_for_untracked(Some(&b"a\nb".to_vec())), 2);
    assert_eq!(count_file_lines_for_untracked(None), 0);
    assert_eq!(count_in(" 7 "), 7);
    assert_eq!(count_in("x"), 0);
}

#[test]
fn commits_and_branches_are_read() {
    let commits = parse_compact_commit_lines("abc123\tFix it\n\ndef456 More\n");
    assert_eq!(commits.len(), 2);
    assert_eq!(commits[0].short_hash, "abc123");
    assert_eq!(commits[0].summary, "Fix it");
    assert_eq!(commits[1].short_hash, "commit");
    assert_eq!(commits[1].summary, "def456 More");
    assert_eq!(parse_local_branches("* main\n dev\n\n"), vec!["main", "dev"]);
    let remotes = vec!["origin".to_string()];
    assert_eq!(
        remote_name_from_upstream_ref("origin/main", &remotes),
        Some("origin".to_string())
    );
}

#[test]
fn a_snapshot_needs_a_repository() {
    match load_git_snapshot("/ws", "ws", &vec![]) {
        SnapshotStep::Run(args) => assert_eq!(args, vec!["rev-parse", "--is-inside-work-tree"]),
        other => panic!("{other:?}"),
    }
    match load_git_snapshot("/ws", "ws", &vec![err("no")]) {
        SnapshotStep::Failed(text) => {
            assert_eq!(text, "No Git repository found for the active workspace.")
        }
        other => panic!("{other:?}"),
    }
    match load_git_snapshot("/ws", "ws", &vec![ok("true")]) {
        SnapshotStep::Run(args) => assert_eq!(args, vec!["symbolic-ref", "--short", "HEAD"]),
        other => panic!("{other:?}"),
    }
}

#[test]
fn a_snapshot_ends_with_what_git_said() {
    let mut replies: Vec<Result<String, String>> = Vec::new();
    let mut steps = 0;
    let snapshot = loop {
        match load_git_snapshot("/ws", "ws", &replies) {
            SnapshotStep::Run(args) => {
                let first = args[0].as_str();
                let reply = if first == "symbolic-ref" {
                    ok("main\n")
                } else if first == "remote" && args.len() == 1 {
                    ok("origin\n")
                } else if first == "status" {
                    ok(" M a.rs\n")
                } else {
                    ok("")
                };
                replies.push(reply);
            }
            SnapshotStep::Loaded(snapshot) => break snapshot,
            other => panic!("{other:?}"),
        }
        steps += 1;
        assert!(steps < 40);
    };
    assert_eq!(snapshot.workspace_root, "/ws");
    assert_eq!(snapshot.repo_name, "ws");
    assert_eq!(snapshot.branch_label, "main");
    assert_eq!(snapshot.files.len(), 1);
    assert_eq!(snapshot.files[0].path, "a.rs");
    assert_eq!(snapshot.remotes, vec!["origin"]);
}

#[test]
fn line_counts_have_to_fit() {
    assert!(numstat_totals_fit("1\t2\ta\n3\t4\tb\n"));
    let max = usize::MAX.to_string();
    assert!(numstat_totals_fit(&format!("{max}\t0\ta\n0\t{max}\tb\n")));
    assert!(!numstat_totals_fit(&format!("{max}\t0\ta\n1\t0\tb\n")));
    assert!(!numstat_totals_fit(&format!("0\t{max}\ta\n0\t1\tb\n")));
    assert!(line_delta_fits(&Ok("1\t2\ta\n".to_string()), &vec![3]));
    assert!(!line_delta_fits(&Ok("1\t2\ta\n".to_string()), &vec![usize::MAX]));
    assert!(line_delta_fits(&Err("other".to_string()), &vec![usize::MAX, 1]));
    assert!(!line_delta_fits(&Err("bad revision 'HEAD'".to_string()), &vec![usize::MAX, 1]));
}

#[test]
fn a_push_never_asks_at_the_terminal() {
    let plain = push_environment(None);
    assert_eq!(plain.len(), 4);
    assert_eq!(plain[0], ("GIT_TERMINAL_PROMPT".to_string(), "0".to_string()));
    assert_eq!(plain[1], ("GIT_ASKPASS".to_string(), "/bin/false".to_string()));
    let answers = PushAnswers {
        askpass: "/tmp/ask".to_string(),
        username: "me".to_string(),
        password: "pw".to_string(),
    };
    let full = push_environment(Some(&answers));
    assert_eq!(full[..4], plain[..]);
    assert_eq!(full[4], ("GIT_ASKPASS".to_string(), "/tmp/ask".to_string()));
    assert_eq!(full[5], ("GIT_USERNAME".to_string(), "me".to_string()));
    assert_eq!(full[6].0, "GIT_PASSWORD");
}

#[test]
fn repositories_are_named_after_their_directory() {
    assert_eq!(repository_name("/home/me/project"), "project");
    assert_eq!(repository_name("/home//me/project/./"), "project");
    assert_eq!(repository_name("project"), "project");
    assert_eq!(repository_name("/home/me/.."), "/home/me/..");
    assert_eq!(repository_name("."), ".");
    assert_eq!(repository_name("/"), "/");
    assert_eq!(repository_name(""), "");
}

#[test]
fn listings_are_read_line_by_line() {
    let paths = |text: &str| -> Vec<(String, String)> {
        parse_porcelain_entries(text).into_iter().map(|e| (e.status, e.path)).collect()
    };
    for (a, b) in [
        (" M a.rs", "?? b.rs"),
        (" M a.rs\r", "D  b.rs\r\n"),
        ("ab\r", "R  x -> y"),
        ("", " M c"),
        ("?? d\n", ""),
    ] {
        let whole = format!("{a}\n{b}");
        let mut both = paths(a);
        both.extend(paths(b));
        assert_eq!(paths(&whole), both);
    }
    for (a, b) in [("3\t1\ta", "2\t2\tb"), ("3\t1\r", "4\r\n5\t6"), ("", "1\t1"), ("7\r", "")] {
        let (x, y) = (parse_numstat_totals(a), parse_numstat_totals(b));
        assert_eq!(parse_numstat_totals(&format!("{a}\n{b}")), (x.0 + y.0, x.1 + y.1));
    }
    assert_eq!(parse_numstat_totals("3\t1\r\n4\r\n5\t6"), (12, 7));
    let names = parse_local_branches("* main\r\n  dev");
    assert_eq!(names, vec!["main".to_string(), "dev".to_string()]);
    let commits = parse_compact_commit_lines("a1\tone\r\n\nb2\ttwo");
    assert_eq!(commits.len(), 2);
    assert_eq!(commits[0].summary, "one");
    assert_eq!(commits[1].short_hash, "b2");
}
