use enzim_ui::thread_list::{
    append_thread_under_parent_from_root, append_thread_under_parent_from_root_passive,
    clear_thread_list_selections, refresh_all_profile_icon_visibility, update_thread_row_title,
    ThreadList,
};
use enzim_ui::thread_rows::{
    after_close, after_resume, close_worktree, completion_shown, find_row_by_widget_name,
    has_non_system_profile, insert_index, is_expected_pre_materialization_error, kept_title,
    local_thread_id_from_row, profile_icon_name_for_profile, profile_icon_name_for_thread,
    profile_icon_visibility, renamed_title, select_thread, selected_rows, setting_names_thread,
    sidebar_profile_icon_visibility_by_workspace_id, thread_has_linked_profile,
    thread_row_name, thread_runtime_workspace_path, thread_to_mark_seen, workspace_display_name,
    workspace_name_for, ResumeFollowUp, SelectAction, SelectFacts, WorkspaceThreads,
};
use enzim_ui::threads::{display_indices, ordered_threads_for_display, ThreadRecord};

fn text(s: &str) -> Option<String> {
    Some(s.to_string())
}

fn thread(id: i64, parent: Option<i64>) -> ThreadRecord {
    ThreadRecord {
        id,
        profile_id: 1,
        parent_thread_id: parent,
        title: format!("thread {id}"),
        remote_thread_id: None,
        remote_account_type: None,
        remote_account_email: None,
        worktree_path: None,
        worktree_active: false,
        created_at: 0,
    }
}

fn linked(id: i64) -> ThreadRecord {
    ThreadRecord { remote_thread_id: text("r"), ..thread(id, None) }
}

fn ids(threads: &[ThreadRecord]) -> Vec<i64> {
    threads.iter().map(|t| t.id).collect()
}

#[test]
fn forks_follow_their_parents() {
    let threads = vec![
        thread(1, None),
        thread(4, Some(2)),
        thread(2, None),
        thread(3, Some(1)),
        thread(5, Some(4)),
        thread(6, Some(99)),
    ];
    assert_eq!(ids(&ordered_threads_for_display(&threads)), vec![1, 3, 2, 4, 5, 6]);
    assert_eq!(display_indices(&threads), vec![0, 3, 2, 1, 4, 5]);
}

#[test]
fn branches_stand_together() {
    let threads = vec![
        thread(7, None),
        thread(2, Some(1)),
        thread(1, None),
        thread(3, Some(2)),
        thread(4, Some(1)),
        thread(5, Some(7)),
        thread(6, Some(2)),
    ];
    assert_eq!(ids(&ordered_threads_for_display(&threads)), vec![7, 5, 1, 2, 3, 6, 4]);
}

#[test]
fn cycles_do_not_part_other_branches() {
    let threads = vec![
        thread(8, Some(9)),
        thread(2, Some(1)),
        thread(9, Some(8)),
        thread(1, None),
        thread(10, Some(9)),
        thread(3, Some(2)),
    ];
    assert_eq!(ids(&ordered_threads_for_display(&threads)), vec![1, 2, 3, 8, 9, 10]);
}

#[test]
fn cycles_are_listed_once() {
    let threads = vec![thread(1, Some(2)), thread(2, Some(1)), thread(2, None)];
    let order = ids(&ordered_threads_for_display(&threads));
    assert_eq!(order, vec![2, 1]);
}

#[test]
fn row_names_lead_back() {
    assert_eq!(thread_row_name(-7), "thread--7");
    assert_eq!(local_thread_id_from_row("thread--7"), Some(-7));
    assert_eq!(local_thread_id_from_row("thread-"), None);
    assert_eq!(local_thread_id_from_row("row-7"), None);
    assert_eq!(
        local_thread_id_from_row(&thread_row_name(i64::MIN)),
        Some(i64::MIN)
    );
}

#[test]
fn rows_are_found_and_placed() {
    let rows = vec!["thread-1".to_string(), "thread-2".to_string()];
    assert_eq!(find_row_by_widget_name(&rows, "thread-2"), Some(1));
    assert_eq!(find_row_by_widget_name(&rows, "thread-3"), None);
    assert_eq!(insert_index(&rows, Some(2)), 2);
    assert_eq!(insert_index(&rows, Some(3)), 0);
    assert_eq!(insert_index(&rows, None), 0);
    assert_eq!(selected_rows(&rows, Some("thread-1")), vec![true, false]);
    assert_eq!(selected_rows(&rows, None), vec![false, false]);
}

#[test]
fn icons_need_an_account() {
    assert!(thread_has_linked_profile(&linked(1)));
    assert!(!thread_has_linked_profile(&thread(1, None)));
    let blank = ThreadRecord { remote_account_email: text("  "), ..thread(1, None) };
    assert!(!thread_has_linked_profile(&blank));
    assert_eq!(profile_icon_name_for_profile(&text(" star ")), "star");
    assert_eq!(profile_icon_name_for_profile(&text(" ")), "person-symbolic");
    assert_eq!(profile_icon_name_for_profile(&None), "person-symbolic");
    assert_eq!(profile_icon_name_for_thread(&linked(1), &text("x")), text("x"));
    assert_eq!(profile_icon_name_for_thread(&thread(1, None), &text("x")), None);
}

#[test]
fn icons_need_a_profile_of_ones_own() {
    assert!(has_non_system_profile(&None, "/home"));
    assert!(!has_non_system_profile(&Some(vec![" /home ".to_string()]), "/home"));
    assert!(has_non_system_profile(&Some(vec!["/other".to_string()]), "/home"));
    let rows = vec![Some(linked(1)), None, Some(thread(2, None))];
    assert_eq!(profile_icon_visibility(&rows, true), (true, vec![true, false, false]));
    assert_eq!(profile_icon_visibility(&rows, false), (false, vec![false, false, false]));
    let map = sidebar_profile_icon_visibility_by_workspace_id(&vec![
        WorkspaceThreads { workspace_id: 1, threads: vec![thread(1, None), linked(2)] },
        WorkspaceThreads { workspace_id: 2, threads: vec![thread(3, None)] },
    ]);
    assert_eq!(map.get(&1), Some(&true));
    assert_eq!(map.get(&2), Some(&false));
    assert_eq!(map.len(), 2);
}

#[test]
fn worktrees_replace_the_workspace_while_active() {
    let active = ThreadRecord {
        worktree_path: text(" /wt "),
        worktree_active: true,
        ..thread(1, None)
    };
    let idle = ThreadRecord { worktree_path: text("/wt"), ..thread(1, None) };
    assert_eq!(thread_runtime_workspace_path(&active, "/ws"), "/wt");
    assert_eq!(thread_runtime_workspace_path(&idle, "/ws"), "/ws");
    assert_eq!(close_worktree(&active), (text("/wt"), true));
    assert_eq!(close_worktree(&thread(1, None)), (None, false));
}

#[test]
fn workspaces_have_short_names() {
    assert_eq!(workspace_display_name(Some(" /home/me/project ")), "project");
    assert_eq!(workspace_display_name(Some("/")), "/");
    assert_eq!(workspace_display_name(Some("  ")), "No workspace");
    assert_eq!(workspace_display_name(None), "No workspace");
    assert_eq!(workspace_name_for(Some("/a/b"), Some("b")), "b");
    assert_eq!(workspace_name_for(Some("/a/b"), None), "/a/b");
}

#[test]
fn early_errors_are_expected() {
    assert!(is_expected_pre_materialization_error("No rollout found for thread id 4"));
    assert!(is_expected_pre_materialization_error("Thread not loaded"));
    assert!(is_expected_pre_materialization_error(
        "not materialized yet; includeTurns is unavailable"
    ));
    assert!(!is_expected_pre_materialization_error("not materialized yet"));
}

fn facts() -> SelectFacts {
    SelectFacts {
        local_thread_id: 4,
        latest: Some(thread(4, None)),
        current_thread_id: None,
        had_account_identity: false,
        is_locked: false,
        pending_profile_thread_id: None,
        has_stored_turns: false,
        refreshed_thread_id: None,
    }
}

#[test]
fn selecting_a_row() {
    assert!(matches!(select_thread(&facts()).action, SelectAction::Start));
    let known = SelectFacts {
        latest: Some(linked(4)),
        pending_profile_thread_id: text("4"),
        ..facts()
    };
    let decision = select_thread(&known);
    assert!(matches!(decision.action, SelectAction::Resume(ref id) if id == "r"));
    assert!(decision.clear_pending);
    assert!(decision.needs_account_backfill);
    let locked = SelectFacts { latest: Some(linked(4)), is_locked: true, ..facts() };
    assert!(matches!(select_thread(&locked).action, SelectAction::ShowLocked(_)));
    let pending = SelectFacts { pending_profile_thread_id: text("4"), ..facts() };
    assert!(matches!(select_thread(&pending).action, SelectAction::ShowNothing));
    let turns = SelectFacts { has_stored_turns: true, ..facts() };
    assert!(matches!(select_thread(&turns).action, SelectAction::Refuse));
    let meanwhile = SelectFacts { refreshed_thread_id: text("n"), ..facts() };
    assert!(matches!(select_thread(&meanwhile).action, SelectAction::Show(ref id) if id == "n"));
    assert!(setting_names_thread(&text("4"), 4));
    assert!(!setting_names_thread(&text("x"), 4));
}

#[test]
fn after_a_resume() {
    let ok = Ok("a".to_string());
    assert_eq!(after_resume("a", &ok, true), ResumeFollowUp::StoreAccount);
    assert_eq!(after_resume("a", &ok, false), ResumeFollowUp::Nothing);
    assert_eq!(after_resume("b", &ok, true), ResumeFollowUp::KeepMapping);
    assert_eq!(after_resume("a", &Err("boom".to_string()), true), ResumeFollowUp::Report);
    assert_eq!(
        after_resume("a", &Err("thread not loaded".to_string()), true),
        ResumeFollowUp::Nothing
    );
    assert_eq!(thread_to_mark_seen(&text("c"), &Some(linked(1))), text("c"));
    assert_eq!(thread_to_mark_seen(&None, &Some(linked(1))), text("r"));
    assert_eq!(thread_to_mark_seen(&None, &None), None);
}

#[test]
fn titles_are_kept_and_renamed() {
    assert_eq!(kept_title("new", "old"), "new");
    assert_eq!(kept_title(" ", "old"), "old");
    assert_eq!(renamed_title("  a b "), text("a b"));
    assert_eq!(renamed_title("  "), None);
    assert!(completion_shown(true, false));
    assert!(!completion_shown(true, true));
}

#[test]
fn a_closed_thread_is_not_active() {
    let r = after_close(4, &text("r"), &text("4"), &text("other"));
    assert!(r.clear_selection);
    assert_eq!(r.active_thread_id, None);
    let r = after_close(4, &text("r"), &text("5"), &text("r"));
    assert!(!r.clear_selection);
    assert_eq!(r.active_thread_id, None);
    let r = after_close(4, &text("r"), &None, &text("other"));
    assert_eq!(r.active_thread_id, text("other"));
}

#[test]
fn lists_take_new_threads() {
    let stored = vec![thread(1, None), linked(2)];
    let mut list = ThreadList::new("/ws", &stored, true, true);
    assert!(list.is_expanded());
    list.set_expanded(false);
    assert!(!list.is_expanded());
    assert!(list.show_profile_icons);
    let active = list.append_thread(thread(3, Some(1)), &stored, true);
    assert_eq!(active, (None, "/ws".to_string()));
    assert_eq!(ids(&list.rows), vec![1, 3, 2]);
    assert_eq!(list.selected, Some(3));
    list.append_thread_passive(thread(4, None), &stored, false);
    assert_eq!(ids(&list.rows), vec![4, 1, 3, 2]);
    assert!(!list.show_profile_icons);
    assert_eq!(list.selected, Some(3));
    assert!(list.update_thread_row_title(3, "T"));
    assert!(!list.update_thread_row_title(9, "T"));
    assert_eq!(list.rows[2].title, "T");
    assert!(list.remove_thread(1, &stored, true));
    assert_eq!(ids(&list.rows), vec![4, 3, 2]);
    assert_eq!(
        list.refresh_profile_icon_visibility(&stored, true),
        vec![false, false, true]
    );
}

#[test]
fn threads_go_to_the_list_of_their_parent() {
    let stored = vec![thread(1, None), thread(2, None)];
    let mut lists = vec![
        ThreadList::new("/a", &vec![thread(1, None)], true, true),
        ThreadList::new("/b", &vec![thread(2, None)], true, true),
    ];
    lists[0].selected = Some(1);
    let active = append_thread_under_parent_from_root(&mut lists, 2, linked(5), &stored, true);
    assert_eq!(active, Some((text("r"), "/b".to_string())));
    assert_eq!(lists[0].selected, None);
    assert_eq!(lists[1].selected, Some(5));
    assert!(append_thread_under_parent_from_root_passive(
        &mut lists,
        1,
        thread(6, Some(1)),
        &stored,
        true
    ));
    assert_eq!(ids(&lists[0].rows), vec![1, 6]);
    assert!(!append_thread_under_parent_from_root_passive(
        &mut lists,
        77,
        thread(7, None),
        &stored,
        true
    ));
    assert!(update_thread_row_title(&mut lists, 6, "six"));
    assert_eq!(lists[0].rows[1].title, "six");
    refresh_all_profile_icon_visibility(&mut lists, &vec![linked(2)], true);
    assert!(!lists[0].show_profile_icons);
    assert!(lists[1].show_profile_icons);
    clear_thread_list_selections(&mut lists);
    assert_eq!(lists[1].selected, None);
}
