use enzim_ui::board::{layout_needs_saving, BoardPane, OpenOutcome, PaneBoard};
use enzim_ui::columns::normalize_columns_for_ids;
use enzim_ui::initial_layout::{
    codex_thread_exists, columns_from_persisted_panes, load_initial_layout, resolve_workspace_path,
    ThreadDirectory,
};
use enzim_ui::layout_store::{
    active_idx_for_tab, normalize_tab_name, parse_persisted_layout,
    serialize_persisted_layout_state, PersistedPane,
};
use enzim_ui::moves::{
    can_vertical_drop, can_vertical_thread_drop, drop_target_for, edge_gap_widget_name,
    gap_for_target, gap_widget_name, hovered_target, move_above_or_below, move_beside,
    move_for_gap_drop, pane_position, thread_for_edge_drop, thread_for_gap_drop, InsertTarget,
};
use enzim_ui::panes::{
    accept_drop, dropped_thread, pane_drag_label, pane_icon_shown, pane_title, view_changed,
    workspace_root_choice, ActiveView,
};
use enzim_ui::payload::{
    pane_drag_payload, parse_pane_reorder_payload, parse_thread_drop_payload,
    remove_codex_thread_from_multiview_layout, remove_thread_from_multiview_layout,
    thread_drag_payload,
};
use enzim_ui::session::start_session;

fn text(s: &str) -> Option<String> {
    Some(s.to_string())
}

fn stored_pane(id: u64, thread: &str, column: usize, row: usize) -> PersistedPane {
    PersistedPane {
        id,
        codex_thread_id: text(thread),
        workspace_path: text("/ws"),
        tab: "chat".to_string(),
        column: Some(column),
        row: Some(row),
    }
}

fn directory(threads: &[&str]) -> ThreadDirectory {
    ThreadDirectory {
        open_threads: threads.iter().map(|t| t.to_string()).collect(),
        workspaces: vec![("t9".to_string(), "/stored".to_string())],
    }
}

fn board(ids: &[u64], columns: Vec<Vec<u64>>, focus: u64) -> PaneBoard {
    let panes = ids
        .iter()
        .map(|id| BoardPane {
            id: *id,
            thread_id: Some(format!("t{id}")),
            workspace_path: text("/ws"),
        })
        .collect();
    PaneBoard::start(panes, columns, focus)
}

#[test]
fn serialize_and_parse_layout_state_roundtrip() {
    let panes = vec![
        PersistedPane {
            id: 1,
            codex_thread_id: Some("thread-a".to_string()),
            workspace_path: Some("/tmp/ws-a".to_string()),
            tab: "chat".to_string(),
            column: Some(0),
            row: Some(0),
        },
        PersistedPane {
            id: 2,
            codex_thread_id: Some("thread-b".to_string()),
            workspace_path: Some("/tmp/ws-b".to_string()),
            tab: "git".to_string(),
            column: Some(1),
            row: Some(0),
        },
    ];
    let columns = vec![vec![1], vec![2]];
    let raw = serialize_persisted_layout_state(&panes, &columns, 2);
    let parsed = parse_persisted_layout(&raw).expect("layout should parse");
    assert_eq!(parsed.focused_pane_id, 2);
    assert_eq!(parsed.panes.len(), 2);
    assert_eq!(
        parsed.columns.expect("columns should be present"),
        vec![vec![1], vec![2]]
    );
}

#[test]
fn parse_layout_filters_invalid_panes() {
    let raw = r#"{
            "focusedPaneId": 7,
            "panes": [
                {"id": 7, "codexThreadId": "  ", "workspacePath": "", "tab": "files", "column": 0, "row": 0},
                {"codexThreadId": "missing-id"}
            ]
        }"#;
    let parsed = parse_persisted_layout(raw).expect("layout should parse");
    assert_eq!(parsed.focused_pane_id, 7);
    assert_eq!(parsed.panes.len(), 1);
    assert_eq!(parsed.panes[0].id, 7);
    assert_eq!(parsed.panes[0].codex_thread_id, None);
    assert_eq!(parsed.panes[0].workspace_path, None);
}

#[test]
fn stored_layout_comes_back_whole() {
    let panes = vec![stored_pane(4, "  t4 ", 0, 0), stored_pane(9, "t9", 2, 1)];
    let raw = serialize_persisted_layout_state(&panes, &vec![vec![4], vec![], vec![9]], 9);
    let parsed = parse_persisted_layout(&raw).unwrap();
    assert_eq!(parsed.panes[0].codex_thread_id, text("t4"));
    assert_eq!(parsed.panes[1].column, Some(2));
    assert_eq!(parsed.panes[1].row, Some(1));
    assert_eq!(parsed.columns, Some(vec![vec![4], vec![9]]));
}

#[test]
fn layout_text_is_exact() {
    let raw = serialize_persisted_layout_state(&vec![stored_pane(1, "a", 0, 0)], &vec![vec![1]], 1);
    assert_eq!(
        raw,
        r#"{"columns":[[1]],"focusedPaneId":1,"panes":[{"codexThreadId":"a","column":0,"id":1,"row":0,"tab":"chat","workspacePath":"/ws"}],"version":1}"#
    );
}

#[test]
fn unreadable_layout_is_none() {
    assert!(parse_persisted_layout("{").is_none());
    let empty = parse_persisted_layout("[]").unwrap();
    assert_eq!(empty.focused_pane_id, 1);
    assert!(empty.panes.is_empty());
    assert_eq!(empty.columns, None);
}

#[test]
fn tabs_have_three_names() {
    assert_eq!(normalize_tab_name("git"), "git");
    assert_eq!(normalize_tab_name("files"), "files");
    assert_eq!(normalize_tab_name("other"), "chat");
    assert_eq!(active_idx_for_tab("git"), 1);
    assert_eq!(active_idx_for_tab("files"), 2);
    assert_eq!(active_idx_for_tab("chat"), 0);
}

#[test]
fn normalizing_places_every_pane_once() {
    let out = normalize_columns_for_ids(&vec![vec![1, 1, 9], vec![], vec![2, 1]], &vec![1, 2, 3]);
    assert_eq!(out, vec![vec![1], vec![2], vec![3]]);
    assert_eq!(normalize_columns_for_ids(&out, &vec![1, 2, 3]), out);
}

#[test]
fn normalizing_cuts_columns_to_two() {
    let out = normalize_columns_for_ids(&vec![vec![1, 2, 3]], &vec![1, 2, 3]);
    assert_eq!(out, vec![vec![1, 2]]);
}

#[test]
fn columns_follow_the_places_of_panes() {
    let panes = vec![stored_pane(1, "a", 1, 0), stored_pane(2, "b", 0, 1), stored_pane(3, "c", 0, 0)];
    assert_eq!(columns_from_persisted_panes(&panes), vec![vec![3, 2], vec![1]]);
}

#[test]
fn a_session_starts_with_open_threads_only() {
    let db = directory(&["a", "b"]);
    let raw = serialize_persisted_layout_state(
        &vec![stored_pane(1, "a", 0, 0), stored_pane(2, "gone", 1, 0), stored_pane(3, "a", 2, 0)],
        &vec![vec![1], vec![2], vec![3]],
        3,
    );
    let layout = load_initial_layout(Some(&raw), &db, None, None);
    assert_eq!(layout.panes.len(), 1);
    assert_eq!(layout.columns, vec![vec![1]]);
    assert_eq!(layout.focused_pane_id, 1);
}

#[test]
fn a_session_without_panes_has_the_fallback() {
    let db = directory(&[]);
    let layout = load_initial_layout(None, &db, text("x"), text("/w"));
    assert_eq!(layout.panes.len(), 1);
    assert_eq!(layout.panes[0].id, 1);
    assert_eq!(layout.panes[0].codex_thread_id, text("x"));
    assert_eq!(layout.columns, vec![vec![1]]);
}

#[test]
fn workspaces_are_resolved_in_order() {
    let db = directory(&["t9"]);
    assert_eq!(resolve_workspace_path(&db, Some("t9"), text("/e"), text("/f")), text("/e"));
    assert_eq!(resolve_workspace_path(&db, Some("t9"), text(" "), text("/f")), text("/stored"));
    assert_eq!(resolve_workspace_path(&db, Some("t1"), None, text("/f")), text("/f"));
    assert_eq!(resolve_workspace_path(&db, None, None, text(" ")), None);
    assert!(codex_thread_exists(&db, "t9"));
    assert!(!codex_thread_exists(&db, "t1"));
    assert!(!codex_thread_exists(&directory(&[" "]), " "));
}

#[test]
fn positions_and_moves() {
    let mut columns = vec![vec![1, 2], vec![3]];
    assert_eq!(pane_position(&columns, 2), Some((0, 1)));
    assert_eq!(pane_position(&columns, 8), None);
    assert_eq!(move_beside(&mut columns, 2, 3, true), Some(true));
    assert_eq!(columns, vec![vec![1], vec![3], vec![2]]);
    assert_eq!(move_above_or_below(&mut columns, 2, 1, false), Some(true));
    assert_eq!(columns, vec![vec![2, 1], vec![3]]);
}

#[test]
fn vertical_drops_need_room() {
    let columns = vec![vec![1, 2], vec![3]];
    assert!(can_vertical_drop(&columns, 1, 2));
    assert!(!can_vertical_drop(&columns, 3, 1));
    assert!(can_vertical_drop(&columns, 1, 3));
    assert!(!can_vertical_thread_drop(&columns, 1));
    assert!(can_vertical_thread_drop(&columns, 3));
    assert_eq!(
        drop_target_for(3, true, true, false, true),
        InsertTarget::Vertical { target_pane_id: 3, below: false }
    );
    assert_eq!(
        drop_target_for(3, false, true, false, true),
        InsertTarget::Horizontal { target_pane_id: 3, after: true }
    );
    assert_eq!(hovered_target(&columns, Some(3), 3, false, false, true), None);
    assert_eq!(
        hovered_target(&columns, None, 1, true, false, false),
        Some(InsertTarget::Horizontal { target_pane_id: 1, after: false })
    );
}

#[test]
fn gaps_have_names() {
    let columns = vec![vec![1, 2], vec![3]];
    assert_eq!(gap_widget_name(1, 3), "multi-chat-gap-1-3");
    assert_eq!(edge_gap_widget_name(true), "multi-chat-gap-edge-start");
    let right = InsertTarget::Horizontal { target_pane_id: 2, after: true };
    assert_eq!(gap_for_target(&columns, right), text("multi-chat-gap-1-3"));
    let end = InsertTarget::Horizontal { target_pane_id: 3, after: true };
    assert_eq!(gap_for_target(&columns, end), text("multi-chat-gap-edge-end"));
    assert_eq!(move_for_gap_drop(1, 3, 1), Some((3, false)));
    assert_eq!(move_for_gap_drop(1, 3, 2), Some((1, true)));
    let behind = InsertTarget::Horizontal { target_pane_id: 1, after: true };
    assert_eq!(thread_for_gap_drop(1), Some(behind));
    assert_eq!(thread_for_gap_drop(0), None);
    assert_eq!(thread_for_edge_drop(3, false), end);
    let start = InsertTarget::Horizontal { target_pane_id: 1, after: false };
    assert_eq!(thread_for_edge_drop(1, true), start);
}

#[test]
fn a_board_keeps_its_panes_when_they_move() {
    let mut b = board(&[1, 2, 3], vec![vec![1, 2], vec![3]], 9);
    assert_eq!(b.focused_pane_id(), 1);
    assert!(b.move_pane_horizontal(1, 3, true));
    assert_eq!(b.columns(), &vec![vec![2], vec![3], vec![1]]);
    assert_eq!(b.focused_pane_id(), 1);
    assert!(b.move_pane_vertical(3, 2, true));
    assert_eq!(b.columns(), &vec![vec![2, 3], vec![1]]);
    assert!(!b.move_pane_horizontal(1, 1, true));
}

#[test]
fn closing_moves_the_focus() {
    let mut b = board(&[1, 2], vec![vec![1], vec![2]], 2);
    assert!(b.can_close());
    assert!(b.close_pane(2));
    assert_eq!(b.focused_pane_id(), 1);
    assert_eq!(b.columns(), &vec![vec![1]]);
    assert!(!b.close_pane(1));
}

#[test]
fn opening_focuses_or_adds_a_pane() {
    let db = directory(&["t1", "t7"]);
    let mut b = board(&[1, 2], vec![vec![1], vec![2]], 2);
    assert!(matches!(
        b.open_or_focus_thread(text("t1"), None, &db),
        OpenOutcome::Focused { pane_id: 1, workspace_changed: false }
    ));
    assert!(matches!(b.open_or_focus_thread(text("t1"), None, &db), OpenOutcome::Unchanged));
    assert!(matches!(
        b.open_or_focus_thread(text("t7"), text("/seven"), &db),
        OpenOutcome::Opened { pane_id: 3 }
    ));
    assert_eq!(b.columns(), &vec![vec![1], vec![2], vec![3]]);
    assert_eq!(b.active_pane().unwrap().id, 3);
}

#[test]
fn placing_a_thread_opens_it_at_the_target() {
    let db = directory(&["t7"]);
    let mut b = board(&[1, 2], vec![vec![1], vec![2]], 2);
    let target = InsertTarget::Vertical { target_pane_id: 1, below: true };
    let outcome = b.place_thread_at_target(text("t7"), None, &db, target);
    assert!(matches!(outcome, OpenOutcome::Opened { pane_id: 3 }));
    assert_eq!(b.columns(), &vec![vec![1, 3], vec![2]]);
}

#[test]
fn a_stored_board_comes_back_in_the_next_session() {
    let b = board(&[1, 2, 5], vec![vec![2, 1], vec![5]], 5);
    let tabs = vec!["git".to_string(), "chat".to_string(), "files".to_string()];
    let raw = b.serialize_persisted_layout(&tabs);
    let db = directory(&["t1", "t2", "t5"]);
    let (next, next_tabs) = start_session(Some(&raw), &db, None, None).unwrap();
    assert_eq!(next.columns(), b.columns());
    assert_eq!(next.focused_pane_id(), 5);
    assert_eq!(next.panes().len(), 3);
    assert_eq!(next.panes()[2].thread_id, text("t5"));
    let active = next.active_pane().unwrap();
    assert_eq!(active.id, 5);
    assert_eq!(active.thread_id, text("t5"));
    assert_eq!(active.workspace_path, b.panes()[2].workspace_path);
    assert_eq!(next_tabs, tabs);
    assert_eq!(next.serialize_persisted_layout(&next_tabs), raw);
    assert!(!layout_needs_saving(Some(&raw), &raw));
    assert!(layout_needs_saving(None, &raw));
}

#[test]
fn a_session_needs_a_free_identifier() {
    let raw = serialize_persisted_layout_state(
        &vec![stored_pane(u64::MAX, "a", 0, 0)],
        &vec![vec![u64::MAX]],
        1,
    );
    assert!(start_session(Some(&raw), &directory(&["a"]), None, None).is_none());
}

#[test]
fn thread_payload_comes_back() {
    let raw = thread_drag_payload(-3, &text("t1"), "/ws");
    assert_eq!(parse_thread_drop_payload(&raw), Some((text("t1"), text("/ws"))));
    assert_eq!(parse_thread_drop_payload("nonsense"), None);
    assert_eq!(
        raw,
        r#"{"codexThreadId":"t1","localThreadId":-3,"threadId":"t1","workspacePath":"/ws"}"#
    );
}

#[test]
fn pane_payload_comes_back() {
    let raw = pane_drag_payload(12);
    assert_eq!(raw, r#"{"kind":"paneReorder","paneId":12}"#);
    assert_eq!(parse_pane_reorder_payload(&raw), Some(12));
    assert_eq!(parse_pane_reorder_payload(r#"{"kind":"other","paneId":12}"#), None);
    assert_eq!(parse_pane_reorder_payload("x"), None);
}

#[test]
fn removing_a_thread_drops_its_panes() {
    let raw = serialize_persisted_layout_state(
        &vec![stored_pane(1, "a", 0, 0), stored_pane(2, "b", 1, 0)],
        &vec![vec![1], vec![2]],
        1,
    );
    let next = remove_thread_from_multiview_layout(&raw, "a").unwrap();
    let parsed = parse_persisted_layout(&next).unwrap();
    assert_eq!(parsed.panes.len(), 1);
    assert_eq!(parsed.panes[0].id, 2);
    assert_eq!(parsed.focused_pane_id, 2);
    assert_eq!(remove_codex_thread_from_multiview_layout(&next, "a"), Some(next));
    assert_eq!(remove_thread_from_multiview_layout(&raw, "  "), None);
    assert_eq!(remove_thread_from_multiview_layout("[]", "a"), None);
    assert_eq!(
        remove_thread_from_multiview_layout("broken", "a"),
        text(r#"{"focusedPaneId":1,"panes":[],"version":1}"#)
    );
}

#[test]
fn panes_have_titles() {
    assert_eq!(pane_title(Some("Fix it")), "Fix it");
    assert_eq!(pane_title(Some("  ")), "New thread");
    assert_eq!(pane_title(None), "New thread");
    assert_eq!(pane_drag_label(4, Some("Fix it")), "Fix it");
    assert_eq!(pane_drag_label(4, None), "Pane 4");
}

#[test]
fn pane_icons_follow_the_workspace() {
    let mut shown = std::collections::HashMap::new();
    shown.insert(3, true);
    shown.insert(4, false);
    assert!(pane_icon_shown(Some(3), &shown));
    assert!(!pane_icon_shown(Some(4), &shown));
    assert!(!pane_icon_shown(Some(5), &shown));
    assert!(!pane_icon_shown(None, &shown));
}

#[test]
fn only_open_threads_are_dropped() {
    let db = directory(&["t1"]);
    let raw = thread_drag_payload(1, &text("t1"), "/ws");
    assert_eq!(dropped_thread(&db, false, &raw), Some(("t1".to_string(), text("/ws"))));
    assert_eq!(dropped_thread(&db, true, &raw), None);
    assert_eq!(dropped_thread(&db, false, &thread_drag_payload(1, &text("t2"), "/ws")), None);
    assert_eq!(dropped_thread(&db, false, "junk"), None);
    assert_eq!(accept_drop(&db, false, &Some((None, text("/ws")))), None);
}

#[test]
fn the_board_follows_changes() {
    let a = ActiveView { thread_id: text("a"), workspace_path: None, pending_profile_thread_id: None };
    let same = ActiveView { thread_id: text("a"), workspace_path: None, pending_profile_thread_id: None };
    let pending =
        ActiveView { thread_id: text("a"), workspace_path: None, pending_profile_thread_id: Some(1) };
    assert!(!view_changed(&a, &same));
    assert!(view_changed(&a, &pending));
}

#[test]
fn the_git_page_prefers_the_active_workspace() {
    assert_eq!(workspace_root_choice(Some(("/a", true)), Some(("/b", true))), Some("/a"));
    assert_eq!(workspace_root_choice(Some(("/a", false)), Some(("/b", true))), Some("/b"));
    assert_eq!(workspace_root_choice(Some(("/a", false)), Some(("/b", false))), None);
    assert_eq!(workspace_root_choice(None, None), None);
}

#[test]
fn a_full_board_still_focuses() {
    let mut full = board(&[1, u64::MAX - 1], vec![vec![1], vec![u64::MAX - 1]], 1);
    assert_eq!(full.pane_to_open(Some("new")), Some(u64::MAX));
    assert_eq!(full.pane_to_open(Some("t1")), None);
    assert_eq!(full.pane_to_open(Some(" ")), None);
    assert_eq!(full.pane_to_open(None), None);
    let last = format!("t{}", u64::MAX - 1);
    assert_eq!(
        full.open_or_focus_thread(Some(last), None, &directory(&[])),
        OpenOutcome::Focused { pane_id: u64::MAX - 1, workspace_changed: false }
    );
    assert!(full.focus_pane(1));
    assert!(!full.focus_pane(1));
    assert_eq!(full.active_pane().unwrap().id, 1);
}

#[test]
fn a_pane_can_show_another_thread() {
    let mut b = board(&[1, 2], vec![vec![1], vec![2]], 2);
    b.show_in_pane(1, text("other"), None);
    assert_eq!(b.panes()[0].thread_id, text("other"));
    assert_eq!(b.panes()[0].workspace_path, None);
    assert_eq!(b.panes()[1].thread_id, text("t2"));
    assert_eq!(b.focused_pane_id(), 2);
    assert_eq!(b.columns(), &vec![vec![1], vec![2]]);
    assert_eq!(b.pane_to_open(Some("t1")), Some(3));
    assert_eq!(b.pane_to_open(Some("other")), None);
    b.show_in_pane(9, text("none"), None);
    assert_eq!(b.panes().len(), 2);
}
