use enzim_ui::age::{format_modified, format_relative_age, Modified};
use enzim_ui::diff::{
    format_diff_line_number, parse_diff_hunk_start_value, parse_diff_hunk_starts,
    render_git_diff_with_actual_line_numbers, untracked_binary_diff, untracked_text_diff,
};
use enzim_ui::preview::{
    build_untracked_diff_preview, checkpoint_obstacle, checkpoint_row, checkpoint_row_index,
    chars_to_skip, choose_git_diff, choose_style_scheme, commit_file_diff,
    commit_history_obstacle, commit_meta, commit_row, compact_turn_label, file_title,
    git_diff_title,
    is_binary, is_image_extension, is_untracked_status, keep_checkpoint_diffs, line_to_reveal,
    limit_preview_text, needs_staged_diff, normalize_relative_path, parse_commit_log,
    picked_checkpoint, preferred_style_schemes, preview_before_reading, preview_meta_text,
    preview_of_bytes, preview_of_text, preview_scheme_parent, preview_scheme_xml,
    select_diff_source, turn_has_tail, CheckpointDiffEntry, CheckpointLookup, DiffSelection, HistoryLookup,
    PreviewContent,
};

#[test]
fn parses_unified_diff_hunk_headers() {
    assert_eq!(parse_diff_hunk_starts("@@ -12,3 +40,5 @@"), Some((12, 40)));
    assert_eq!(parse_diff_hunk_starts("@@ -1 +9 @@"), Some((1, 9)));
    assert_eq!(parse_diff_hunk_starts("not a hunk"), None);
}

#[test]
fn renders_actual_old_and_new_line_numbers_for_diff_lines() {
    let diff = "\
diff --git a/sample.rs b/sample.rs
@@ -10,3 +20,4 @@
 context
-old line
+new line
+newer line
";
    let rendered = render_git_diff_with_actual_line_numbers(diff);
    assert!(
        rendered.lines().any(|line| line.contains("10")
            && line.contains("20")
            && line.ends_with(" context"))
    );
    assert!(
        rendered
            .lines()
            .any(|line| line.contains("11") && line.ends_with("-old line"))
    );
    assert!(
        rendered
            .lines()
            .any(|line| line.contains("21") && line.ends_with("+new line"))
    );
    assert!(
        rendered
            .lines()
            .any(|line| line.contains("22") && line.ends_with("+newer line"))
    );
}

#[test]
fn line_numbers_stand_before_the_lines() {
    assert_eq!(format_diff_line_number(Some(7)), "7");
    assert_eq!(format_diff_line_number(None), "");
    assert_eq!(parse_diff_hunk_start_value("-12,3"), None);
    assert_eq!(parse_diff_hunk_start_value("12,3"), Some(12));
    assert_eq!(
        render_git_diff_with_actual_line_numbers("@@ -1 +1 @@\n a\n"),
        "               @@ -1 +1 @@\n     1      1   a\n"
    );
}

#[test]
fn new_files_get_a_diff() {
    assert!(untracked_binary_diff("a.bin").contains("a.bin"));
    let diff = untracked_text_diff("a.txt", "one\ntwo\n");
    assert!(diff.contains("@@ -0,0 +1,2 @@\n"));
    assert!(diff.contains("+one\n+two\n"));
    assert_eq!(build_untracked_diff_preview(Some(&b"one\ntwo\n".to_vec()), "a.txt"), diff);
    assert_eq!(
        build_untracked_diff_preview(Some(&vec![1, 0, 2]), "a.bin"),
        untracked_binary_diff("a.bin")
    );
}

#[test]
fn ages_are_short() {
    assert_eq!(format_relative_age(100, 100), "now");
    assert_eq!(format_relative_age(1000, 1000 - 120), "2m ago");
    assert_eq!(format_relative_age(10_000, 10_000 - 7_200), "2h ago");
    assert_eq!(format_modified(Modified::SecondsAgo(7_200)), "2h");
    assert_eq!(format_modified(Modified::SecondsAgo(172_800)), "2d");
}

#[test]
fn binary_files_hold_a_zero() {
    assert!(is_binary(&vec![1, 0]));
    assert!(!is_binary(&vec![1, 2]));
    assert!(matches!(preview_of_bytes(Some(&vec![65, 0])), Some(PreviewContent::Binary)));
    match preview_of_bytes(Some(&vec![65, 0xff, 66])) {
        Some(PreviewContent::Text(text)) => assert_eq!(text, "A\u{fffd}B"),
        other => panic!("{other:?}"),
    }
    match preview_of_text(false, "hello") {
        PreviewContent::Text(text) => assert_eq!(text, "hello"),
        other => panic!("{other:?}"),
    }
}

#[test]
fn images_and_large_files_are_not_read() {
    assert!(is_image_extension(Some("PNG")));
    assert!(!is_image_extension(Some("rs")));
    assert!(!is_image_extension(None));
    assert!(matches!(preview_before_reading(true, Some(1)), Some(PreviewContent::Image)));
    assert!(preview_before_reading(false, Some(10)).is_none());
    assert!(matches!(
        preview_before_reading(false, Some(u64::MAX)),
        Some(PreviewContent::TooLarge { .. })
    ));
}

#[test]
fn long_texts_are_cut() {
    assert_eq!(limit_preview_text("short"), "short");
}

#[test]
fn places_are_shown() {
    assert_eq!(
        preview_meta_text("/a", "2h", Some(3), Some(4)),
        preview_meta_text("/a", "2h", Some(3), Some(4))
    );
    assert!(preview_meta_text("/a", "2h", Some(3), Some(4)).contains(" • L3:4"));
    assert!(preview_meta_text("/a", "2h", Some(3), None).contains(" • L3"));
    assert_eq!(line_to_reveal(3, 10), 2);
    assert_eq!(line_to_reveal(99, 10), 9);
    assert_eq!(chars_to_skip(5, 80), 4);
}

#[test]
fn git_diffs_fall_back() {
    assert_eq!(git_diff_title("src/a.rs", Some("a.rs")), "src/a.rs");
    assert_eq!(git_diff_title("\0", Some("a.rs")), "a.rs");
    assert_eq!(git_diff_title("", Some("a.rs")), "a.rs");
    assert_eq!(git_diff_title("", None), "Unknown");
    assert_eq!(file_title(Some("a\0.rs")), "a.rs");
    assert_eq!(file_title(None), "Unknown");
    assert_eq!(
        normalize_relative_path(&vec!["a".to_string(), "b\0c".to_string()]),
        "a/bc"
    );
    assert!(is_untracked_status("??"));
    assert!(!is_untracked_status("M"));
    assert!(needs_staged_diff("  \n"));
    assert_eq!(choose_git_diff("", "staged"), "staged");
    assert_eq!(choose_git_diff("now", "staged"), "now");
    assert_eq!(choose_git_diff("", ""), "No diff available for this file.");
    assert_eq!(commit_file_diff(" "), "No diff available for this commit and file.");
    assert_eq!(commit_file_diff("d"), "d");
}

fn lookup<'a>() -> CheckpointLookup<'a> {
    CheckpointLookup {
        last_active_thread_id: Some("4"),
        thread_found: true,
        remote_thread_id: Some("r"),
        workspace_found: true,
        inside_workspace: true,
    }
}

#[test]
fn obstacles_are_named_in_order() {
    assert_eq!(checkpoint_obstacle(&lookup()), None);
    assert_eq!(
        checkpoint_obstacle(&CheckpointLookup { last_active_thread_id: None, ..lookup() }),
        Some("No active thread for checkpoint diffs.")
    );
    assert_eq!(
        checkpoint_obstacle(&CheckpointLookup { thread_found: false, ..lookup() }),
        Some("Active thread record is unavailable.")
    );
    assert_eq!(
        checkpoint_obstacle(&CheckpointLookup { remote_thread_id: Some(" "), ..lookup() }),
        Some("Thread has no remote runtime id yet. Checkpoint diffs unavailable.")
    );
    assert_eq!(
        checkpoint_obstacle(&CheckpointLookup { workspace_found: false, ..lookup() }),
        Some("Workspace path not found for active thread.")
    );
    assert_eq!(
        checkpoint_obstacle(&CheckpointLookup { inside_workspace: false, ..lookup() }),
        Some("Current file is outside the active thread workspace.")
    );
    assert_eq!(commit_history_obstacle(HistoryLookup::Found), None);
    assert_eq!(
        commit_history_obstacle(HistoryLookup::NoDirectory),
        Some("Unable to resolve file directory.")
    );
    assert_eq!(
        commit_history_obstacle(HistoryLookup::NoRepository),
        Some("Git repository not available for this file.")
    );
    assert_eq!(
        commit_history_obstacle(HistoryLookup::OutsideRepository),
        Some("Current file is outside the detected git repository.")
    );
    assert_eq!(
        commit_history_obstacle(HistoryLookup::NoLog),
        Some("Unable to read git history for this file.")
    );
}

fn checkpoint(id: i64, diff: &str) -> CheckpointDiffEntry {
    CheckpointDiffEntry {
        checkpoint_id: id,
        turn_id: "turn-0123456789abcdef".to_string(),
        created_at: 0,
        diff_text: diff.to_string(),
    }
}

#[test]
fn empty_checkpoint_diffs_are_dropped() {
    let (kept, note) = keep_checkpoint_diffs(vec![checkpoint(1, " "), checkpoint(2, "d")]);
    assert_eq!(kept.len(), 1);
    assert_eq!(note, "");
    assert_eq!(checkpoint_row_index(&kept, 2), Some(0));
    assert_eq!(checkpoint_row_index(&kept, 1), None);
    let (none, note) = keep_checkpoint_diffs(vec![checkpoint(1, "")]);
    assert!(none.is_empty());
    assert_eq!(note, "No checkpoint diffs found for this file.");
}

#[test]
fn checkpoints_have_rows() {
    assert_eq!(compact_turn_label("turn-0123456789abcdef"), "Turn 23456789abcdef");
    assert_eq!(compact_turn_label("t1"), "Turn t1");
    let row = checkpoint_row(&checkpoint(3, "d"), 0);
    assert!(row.title.contains("23456789abcdef"));
    let (text, _) = picked_checkpoint(&checkpoint(3, ""), 0);
    assert_eq!(text, "No diff available for this checkpoint.");
}

#[test]
fn commit_logs_are_read() {
    let (entries, note) = parse_commit_log("abc\t2024-01-02\tFix\tit\n\nbroken line\n");
    assert_eq!(entries.len(), 1);
    assert_eq!(entries[0].commit, "abc");
    assert_eq!(entries[0].date, "2024-01-02");
    assert_eq!(entries[0].subject, "Fix\tit");
    assert_eq!(note, "");
    assert_eq!(commit_row(&entries[0]).title, "abc Fix\tit");
    assert!(commit_meta(&entries[0]).contains("abc"));
    let subjects = |log: &str| -> Vec<String> {
        parse_commit_log(log).0.into_iter().map(|entry| entry.subject).collect()
    };
    let (first, second) = ("a\t1\tone\r", "b\t2\ttwo\r\nc\t3\tthree");
    assert_eq!(subjects(first), vec!["one"]);
    assert_eq!(subjects(second), vec!["two", "three"]);
    assert_eq!(subjects(&format!("{first}\n{second}")), vec!["one", "two", "three"]);
    let (none, note) = parse_commit_log("  \n");
    assert!(none.is_empty());
    assert_eq!(note, "No git history entries for this file.");
}

#[test]
fn the_first_source_is_shown() {
    assert_eq!(select_diff_source(1, 1), DiffSelection::FirstCheckpoint);
    assert_eq!(select_diff_source(0, 1), DiffSelection::FirstCommit);
    assert_eq!(select_diff_source(0, 0), DiffSelection::Nothing);
}

#[test]
fn style_schemes_follow_the_preference() {
    let list = |names: &[&str]| names.iter().map(|n| n.to_string()).collect::<Vec<_>>();
    assert_eq!(
        choose_style_scheme(&list(&["x", "b"]), &list(&["a", "b"])),
        Some("b".to_string())
    );
}

#[test]
fn the_preview_scheme_is_described() {
    let names = |all: &[&str]| all.iter().map(|s| s.to_string()).collect::<Vec<String>>();
    assert_eq!(preferred_style_schemes().len(), 6);
    assert_eq!(preferred_style_schemes()[0], "enzimcoder-preview-dark");
    assert_eq!(preview_scheme_parent(&names(&["enzimcoder-preview-dark", "x"])), None);
    assert_eq!(
        preview_scheme_parent(&names(&["classic-dark", "solarized-dark"])),
        Some("solarized-dark".to_string())
    );
    let plain = preview_scheme_xml(None);
    assert!(plain.contains("version=\"1.0\">\n  <author>"));
    let child = preview_scheme_xml(Some("oblivion"));
    assert!(child.contains(" version=\"1.0\" parent-scheme=\"oblivion\">\n"));
    assert!(child.ends_with("</style-scheme>\n"));
}

#[test]
fn turn_labels_end_in_whole_characters() {
    assert!(turn_has_tail("short"));
    assert!(turn_has_tail("turn-0123456789abcd"));
    assert!(!turn_has_tail("xé0123456789abc"));
    assert!(turn_has_tail("é0123456789abcd"));
    assert_eq!(compact_turn_label("é0123456789abcd"), "Turn 0123456789abcd");
}
