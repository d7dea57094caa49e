use enzim_ui::json::{parse, render, Json};
use enzim_ui::restore::{
    action_label, checkpoint_label, classify_git_reflog_summary, count_restore_items,
    extract_turn_texts, git_actions_since_checkpoint, restore_applied_message,
    restore_confirm_message, restore_git_risk_message, restore_summary, snippet,
    touched_paths_preview, turn_previews, turn_text_for, undo_applied_message,
    undo_confirm_message, undo_forced_paths, GitRiskLevel, RestoreAction, RestoreApplyResult,
    RestoreItem,
};
use enzim_ui::rollback::{
    apply_restore_step, apply_restore_with_chat_sync, is_opencode_backend,
    opencode_restore_obstacle, prefill_prompt, rollback_thread_to_target, undo_chat_status,
    undo_opencode_restore, ApplyReply, Ask, ChatStep, RestoreStep, RollbackContext, SyncContext,
    SyncStep, UndoStep,
};
use enzim_ui::turns::{
    build_trimmed_thread_view, parse_turn_timestamp_opt, time_texts_of, IsoTimes,
};

fn item(path: &str, action: RestoreAction, conflict: bool) -> RestoreItem {
    RestoreItem { path: path.to_string(), action, conflict, reason: String::new() }
}

fn items() -> Vec<RestoreItem> {
    vec![
        item("b.rs", RestoreAction::Write, false),
        item("a.rs", RestoreAction::Delete, true),
        item("c.rs", RestoreAction::Recreate, false),
    ]
}

fn json(text: &str) -> Json {
    parse(text).unwrap()
}

fn no_times() -> IsoTimes {
    IsoTimes { times: vec![] }
}

#[test]
fn items_are_counted() {
    let counts = count_restore_items(&items());
    assert_eq!((counts.restore, counts.delete, counts.recreate), (1, 1, 1));
    assert_eq!(counts.conflict, 1);
    assert_eq!(counts.touched, 3);
    assert!(restore_summary(Some(&items())).contains('1'));
    assert_eq!(restore_summary(None), "No restore preview available for this checkpoint.");
    assert!(!action_label(RestoreAction::Write).is_empty());
}

#[test]
fn touched_paths_are_listed_in_order() {
    assert_eq!(touched_paths_preview(&items(), 2), "• a.rs\n• b.rs\n• …and 1 more");
    assert_eq!(touched_paths_preview(&items(), 3), "• a.rs\n• b.rs\n• c.rs");
    assert_eq!(undo_forced_paths(&items()), vec!["a.rs"]);
}

#[test]
fn confirmations_name_the_files() {
    assert!(restore_confirm_message(&items(), 1, "").contains("Touched files:\n• a.rs"));
    assert!(undo_confirm_message(&items()).contains("Conflicts detected: 1"));
    let result = RestoreApplyResult {
        target_checkpoint_id: 4,
        backup_checkpoint_id: 5,
        restored_count: 1,
        deleted_count: 2,
        recreated_count: 3,
        skipped_conflicts: 4,
    };
    assert!(restore_applied_message(&result, " • x").ends_with(" • x"));
    assert!(restore_applied_message(&result, "").contains("Backup checkpoint: 5"));
    assert!(undo_applied_message(4, &result).contains("New backup: 5"));
}

#[test]
fn checkpoints_are_labelled() {
    assert_eq!(checkpoint_label("t1", 7200, 0), "Turn t1 • 2h ago");
    assert_eq!(snippet("abc", 5), "abc");
    assert_eq!(snippet("abcdef", 3).chars().count() <= 4, true);
    assert_eq!(
        turn_previews(None),
        ("(turn text not available)".to_string(), "(turn text not available)".to_string())
    );
}

#[test]
fn git_actions_carry_risks() {
    assert_eq!(classify_git_reflog_summary("reset: moving to HEAD~1"), Some(GitRiskLevel::High));
    assert_eq!(classify_git_reflog_summary("Fetch origin"), Some(GitRiskLevel::Info));
    assert_eq!(classify_git_reflog_summary("commit: x"), None);
    assert!(git_actions_since_checkpoint("", 10).is_none());
    assert!(git_actions_since_checkpoint("pull: x|10\n", 10).is_none());
    let reflog = "pull: a|b|20\nfetch: c|19\ncommit: d|18\nreset: e|17\nmerge f|16\npull|5\n";
    let summary = git_actions_since_checkpoint(reflog, 10).unwrap();
    assert_eq!(summary.high_risk_count, 3);
    assert_eq!(summary.info_count, 1);
    assert_eq!(summary.recent_actions, vec!["pull: a|b", "fetch: c", "reset: e"]);
    let joined = git_actions_since_checkpoint("fetch: a|20\r\npull: b|19", 10).unwrap();
    assert_eq!((joined.high_risk_count, joined.info_count), (1, 1));
    assert_eq!(joined.recent_actions, vec!["fetch: a", "pull: b"]);
    assert!(restore_git_risk_message(&summary).starts_with("Git changed since this checkpoint: "));
}

#[test]
fn turns_have_texts() {
    let thread = json(
        r#"{"turns":[{"id":"t1","items":[{"type":"userMessage","content":[{"type":"text","text":"hi"}]},{"type":"agentMessage","text":"hello"}]}]}"#,
    );
    let list = extract_turn_texts(&thread);
    assert_eq!(list.len(), 1);
    assert_eq!(turn_text_for(&list, "t1"), Some(("hi", "hello")));
    assert_eq!(turn_text_for(&list, "t2"), None);
}

const THREAD: &str = r#"{"id":"x","turns":[{"id":"t1","createdAt":1},{"id":"t2","createdAt":2},{"id":"t3","createdAt":3}]}"#;

#[test]
fn a_thread_is_cut_before_the_target() {
    let cut = build_trimmed_thread_view(&json(THREAD), "t2", &no_times()).unwrap();
    assert_eq!(cut.rollback_count, 2);
    assert_eq!(
        render(&cut.thread),
        r#"{"id":"x","turns":[{"createdAt":1,"id":"t1"}]}"#
    );
    let unsorted = r#"{"turns":[{"id":"a","createdAt":30},{"id":"b","createdAt":10},{"id":"c","createdAt":20},{"createdAt":5},{"id":"d","createdAt":20}]}"#;
    let cut = build_trimmed_thread_view(&json(unsorted), "d", &no_times()).unwrap();
    assert_eq!(cut.rollback_count, 2);
    assert_eq!(cut.chrono_target_pos, 3);
    assert_eq!(
        render(&cut.thread),
        r#"{"turns":[{"createdAt":10,"id":"b"},{"createdAt":20,"id":"c"}]}"#
    );
    assert!(build_trimmed_thread_view(&json(THREAD), "t9", &no_times()).is_err());
    assert!(build_trimmed_thread_view(&json("{}"), "t1", &no_times()).is_err());
}

#[test]
fn times_are_read_from_numbers_and_texts() {
    assert_eq!(parse_turn_timestamp_opt(&json(r#"{"createdAt":7}"#), &no_times()), Some(7));
    let iso = IsoTimes { times: vec![("2024-01-01T00:00:00Z".to_string(), 1704067200)] };
    let turn = json(r#"{"createdAt":"2024-01-01T00:00:00Z"}"#);
    assert_eq!(parse_turn_timestamp_opt(&turn, &iso), Some(1704067200));
    assert_eq!(parse_turn_timestamp_opt(&turn, &no_times()), None);
    let thread = json(r#"{"turns":[{"id":"a","createdAt":"2024-01-01T00:00:00Z"}]}"#);
    assert_eq!(time_texts_of(&thread), vec!["2024-01-01T00:00:00Z"]);
}

fn context(opencode: bool, workspace: bool) -> RollbackContext {
    RollbackContext {
        supports_rollback: true,
        is_opencode: opencode,
        has_workspace: workspace,
        target_turn_id: "t2".to_string(),
        iso: no_times(),
    }
}

fn asked(step: ChatStep) -> Ask {
    match step {
        ChatStep::Ask(ask) => ask,
        ChatStep::Done(Ok(outcome)) => panic!("{}", outcome.status_text),
        ChatStep::Done(Err(err)) => panic!("{err}"),
    }
}

fn fail(text: &str) -> Result<Json, String> {
    Err(text.to_string())
}

#[test]
fn a_chat_is_trimmed() {
    let c = context(false, true);
    let mut replies = vec![];
    assert_eq!(asked(rollback_thread_to_target(&c, &replies)), Ask::Read);
    replies.push(Ok(json(THREAD)));
    assert_eq!(asked(rollback_thread_to_target(&c, &replies)), Ask::Rollback(2));
    replies.push(Ok(json("{}")));
    assert_eq!(asked(rollback_thread_to_target(&c, &replies)), Ask::Resume);
    replies.push(Ok(json("{}")));
    assert_eq!(asked(rollback_thread_to_target(&c, &replies)), Ask::Read);
    replies.push(Ok(json(r#"{"now":1}"#)));
    match rollback_thread_to_target(&c, &replies) {
        ChatStep::Done(Ok(outcome)) => {
            assert_eq!(outcome.status_text, " • Chat trimmed: 2 turn(s)");
            let sync = outcome.thread_sync.unwrap();
            assert_eq!(render(&sync.thread), r#"{"now":1}"#);
            assert!(sync.request_runtime_history_reload);
        }
        _ => panic!(),
    }
}

#[test]
fn an_unloaded_thread_is_resumed_first() {
    let c = context(false, true);
    let mut replies = vec![fail("thread not loaded: x")];
    assert_eq!(asked(rollback_thread_to_target(&c, &replies)), Ask::Resume);
    replies.push(fail("down"));
    match rollback_thread_to_target(&c, &replies) {
        ChatStep::Done(Err(text)) => assert_eq!(
            text,
            "chat trim failed: failed to materialize thread for rollback: down"
        ),
        _ => panic!(),
    }
    let alone = context(false, false);
    match rollback_thread_to_target(&alone, &vec![fail("thread not loaded: x")]) {
        ChatStep::Done(Err(text)) => assert_eq!(text, "chat trim failed: thread not loaded: x"),
        _ => panic!(),
    }
    let opencode = context(true, true);
    assert_eq!(asked(rollback_thread_to_target(&opencode, &vec![])), Ask::Resume);
}

#[test]
fn opencode_restores_have_conditions() {
    assert!(is_opencode_backend("OpenCode"));
    assert_eq!(opencode_restore_obstacle(true, Some("opencode")), None);
    assert_eq!(
        opencode_restore_obstacle(false, Some("opencode")),
        Some("OpenCode restore requires a checkpoint turn target.")
    );
    assert_eq!(
        opencode_restore_obstacle(true, None),
        Some("OpenCode restore requires a running runtime client.")
    );
    assert_eq!(
        opencode_restore_obstacle(true, Some("codex")),
        Some("OpenCode restore is only available for OpenCode threads.")
    );
}

#[test]
fn undoing_a_chat_restore() {
    assert!(matches!(undo_opencode_restore(Some("opencode"), true, &vec![]), UndoStep::Resume));
    assert!(matches!(
        undo_opencode_restore(Some("opencode"), true, &vec![fail("x")]),
        UndoStep::Unrollback
    ));
    match undo_opencode_restore(Some("opencode"), false, &vec![fail("x")]) {
        UndoStep::Done(Err(text)) => assert_eq!(text, "OpenCode undo failed: x"),
        _ => panic!(),
    }
    match undo_opencode_restore(Some("opencode"), false, &vec![Ok(json("{}"))]) {
        UndoStep::Done(Ok(outcome)) => {
            assert_eq!(outcome.status_text, " • OpenCode restore undone")
        }
        _ => panic!(),
    }
    match undo_opencode_restore(None, false, &vec![]) {
        UndoStep::Done(Err(text)) => {
            assert_eq!(text, "OpenCode restore undo requires a running runtime client.")
        }
        _ => panic!(),
    }
    match undo_opencode_restore(Some("codex"), false, &vec![]) {
        UndoStep::Done(Err(text)) => {
            assert_eq!(text, "OpenCode restore undo is only available for OpenCode threads.")
        }
        _ => panic!(),
    }
    assert_eq!(undo_chat_status(&Err("e".to_string())), " • Chat restore skipped (e)");
    assert_eq!(undo_chat_status(&Ok("s".to_string())), "s");
}

#[test]
fn files_follow_the_chat_with_opencode() {
    assert!(matches!(apply_restore_step(Some("opencode"), true, &None, &None), RestoreStep::Trim));
    let trimmed = Some(Ok("done".to_string()));
    assert!(matches!(
        apply_restore_step(Some("opencode"), true, &trimmed, &None),
        RestoreStep::Apply
    ));
    match apply_restore_step(Some("opencode"), true, &Some(Err("e".to_string())), &None) {
        RestoreStep::Done(result) => {
            assert_eq!(result, Err("Restore apply aborted because e".to_string()))
        }
        other => panic!("{other:?}"),
    }
    assert!(matches!(apply_restore_step(Some("codex"), true, &None, &None), RestoreStep::Apply));
    assert!(matches!(
        apply_restore_step(Some("codex"), true, &None, &Some(ApplyReply::Applied)),
        RestoreStep::Trim
    ));
    match apply_restore_step(None, true, &None, &Some(ApplyReply::Applied)) {
        RestoreStep::Done(result) => assert_eq!(
            result,
            Err("Restore applied, but chat trim failed: runtime client unavailable.".to_string())
        ),
        other => panic!("{other:?}"),
    }
    match apply_restore_step(None, false, &None, &Some(ApplyReply::Unavailable)) {
        RestoreStep::Done(result) => assert_eq!(
            result,
            Err("Restore apply unavailable for this checkpoint.".to_string())
        ),
        other => panic!("{other:?}"),
    }
    match apply_restore_step(None, false, &None, &Some(ApplyReply::Applied)) {
        RestoreStep::Done(result) => assert_eq!(
            result,
            Ok(" • Chat trim skipped (no remote turn context)".to_string())
        ),
        other => panic!("{other:?}"),
    }
}

fn sync_context() -> SyncContext {
    SyncContext {
        target_turn_id: Some("t2".to_string()),
        has_client: true,
        supports_rollback: true,
        has_workspace: false,
        has_window: true,
        iso: no_times(),
    }
}

#[test]
fn the_chat_on_screen_follows_a_restore() {
    let c = sync_context();
    let replies = vec![Ok(json(THREAD)), Ok(json(r#"{"r":1}"#)), fail("gone")];
    match apply_restore_with_chat_sync(&c, &replies, None) {
        SyncStep::Show(thread) => assert_eq!(render(&thread), r#"{"r":1}"#),
        _ => panic!(),
    }
    match apply_restore_with_chat_sync(&c, &replies, Some(true)) {
        SyncStep::Done(Ok(outcome)) => {
            assert_eq!(outcome.status, " • Chat trimmed: 2 turn(s)");
            assert!(outcome.allow_prefill);
        }
        _ => panic!(),
    }
    match apply_restore_with_chat_sync(&c, &replies, Some(false)) {
        SyncStep::Done(Err(text)) => assert_eq!(
            text,
            "Restore applied and chat trimmed, but failed to refresh visible chat UI."
        ),
        _ => panic!(),
    }
    let without = SyncContext { target_turn_id: None, ..sync_context() };
    match apply_restore_with_chat_sync(&without, &vec![], None) {
        SyncStep::Done(Ok(outcome)) => assert!(!outcome.allow_prefill),
        _ => panic!(),
    }
    let no_client = SyncContext { has_client: false, ..sync_context() };
    assert!(matches!(
        apply_restore_with_chat_sync(&no_client, &vec![], None),
        SyncStep::Done(Err(_))
    ));
    assert_eq!(prefill_prompt(true, Some("p")), Some("p"));
    assert_eq!(prefill_prompt(true, Some(" ")), None);
    assert_eq!(prefill_prompt(false, Some("p")), None);
}
