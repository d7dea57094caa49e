//! What the rows of threads, their ages and what is dragged come to.
use vstd::prelude::*;
#[allow(unused_imports)]
use crate::age::{ago, modified_label, rounded_age, seconds_since, Modified};
#[allow(unused_imports)]
use crate::git_laws::says;
#[allow(unused_imports)]
use crate::initial_layout::ThreadDirectory;
#[allow(unused_imports)]
use crate::json::{field, field_str, field_u64, JsonTree};
#[allow(unused_imports)]
use crate::layout_store::{trimmed_text, visible_text};
#[allow(unused_imports)]
use crate::lines::ascii_lower;
#[allow(unused_imports)]
use crate::number::{decimal, parsed_i64};
#[allow(unused_imports)]
use crate::panes::{accepted_drop, dragged_title, shown_title};
#[allow(unused_imports)]
use crate::payload::{
    focus_among, pane_payload_tree, pane_reorder_of, pane_thread, panes_without, thread_drop_of,
    thread_payload_tree,
};
#[allow(unused_imports)]
use crate::settings::switch_setting;
#[allow(unused_imports)]
use crate::text::{lemma_contains_text, trimmed};
#[allow(unused_imports)]
use crate::text_laws::{is_blank, lemma_trimmed_blank};
#[allow(unused_imports)]
use crate::thread_list::{deselected, list_with, place_for, row_of, stored_record, ListModel};
#[allow(unused_imports)]
use crate::thread_rows::{
    active_after_close, icons_shown, insert_place, is_early_error, is_linked, lacks_account,
    profile_icon, resume_follow_up, row_index, row_name, runtime_workspace, seen_thread,
    select_action, selected_marks, some_linked, visibility_of, workspace_name, worktree_cleanup,
    ResumeFollowUp, SelectFacts, SelectModel, WorkspaceThreads,
};
#[allow(unused_imports)]
use crate::threads::{thread_models, ThreadModel};

verus! {

// ---------------------------------------------------------------------------------------------
// Rows
// ---------------------------------------------------------------------------------------------
proof fn lemma_row_index(rows: Seq<Seq<char>>, name: Seq<char>)
    ensures
        match row_index(rows, name) {
            Some(i) => {
                &&& 0 <= i < rows.len()
                &&& rows[i] == name
                &&& forall|j: int| 0 <= j < i ==> rows[j] != name
            },
            None => !rows.contains(name),
        },
    decreases rows.len(),
{
    if rows.len() > 0 && rows.first() != name {
        let rest = rows.drop_first();
        lemma_row_index(rest, name);
        match row_index(rest, name) {
            Some(i) => {
                assert(rows[i + 1] == rest[i]);
                assert forall|j: int| 0 <= j < i + 1 implies rows[j] != name by {
                    if j > 0 {
                        assert(rest[j - 1] == rows[j]);
                    }
                }
            },
            None => {
                if rows.contains(name) {
                    let k = rows.index_of(name);
                    assert(rest[k - 1] == name);
                }
            },
        }
    }
}

/// A new row goes right below the row of its parent, and on top where there is none.
pub proof fn lemma_insert_place(rows: Seq<Seq<char>>, parent: i64, i: int)
    ensures
        0 <= i < rows.len() && rows[i] == row_name(parent as int) && (forall|j: int|
            0 <= j < i ==> rows[j] != row_name(parent as int)) ==> insert_place(rows, Some(parent))
            == i + 1,
        !rows.contains(row_name(parent as int)) ==> insert_place(rows, Some(parent)) == 0,
        insert_place(rows, None) == 0,
{
    lemma_row_index(rows, row_name(parent as int));
    if 0 <= i < rows.len() && rows[i] == row_name(parent as int) {
        assert(rows.contains(rows[i]));
    }
}

/// The rows that are marked are those of the selected name.
pub proof fn lemma_selected_marks(rows: Seq<Seq<char>>, target: Seq<char>, i: int)
    requires
        0 <= i < rows.len(),
    ensures
        selected_marks(rows, Some(target))[i] <==> rows[i] == target,
        !selected_marks(rows, None)[i],
        selected_marks(rows, None).len() == rows.len(),
{
}

proof fn lemma_row_of(rows: Seq<ThreadModel>, id: i64, from: int)
    requires
        0 <= from <= rows.len(),
    ensures
        match row_of(rows, id, from) {
            Some(i) => {
                &&& from <= i < rows.len()
                &&& rows[i].id == id
                &&& forall|j: int| from <= j < i ==> (#[trigger] rows[j]).id != id
            },
            None => forall|j: int| from <= j < rows.len() ==> (#[trigger] rows[j]).id != id,
        },
    decreases rows.len() - from,
{
    if from < rows.len() && rows[from].id != id {
        lemma_row_of(rows, id, from + 1);
    }
}

/// A thread is put right below its parent, and on top where its parent is not shown; a thread's
/// record is the first stored one of its identifier.
pub proof fn lemma_place_for(rows: Seq<ThreadModel>, parent: i64, i: int)
    ensures
        0 <= i < rows.len() && rows[i].id == parent && (forall|j: int|
            0 <= j < i ==> (#[trigger] rows[j]).id != parent) ==> place_for(rows, Some(parent)) == i
            + 1 && stored_record(rows, parent) == Some(rows[i]),
        (forall|j: int| 0 <= j < rows.len() ==> (#[trigger] rows[j]).id != parent) ==> place_for(
            rows,
            Some(parent),
        ) == 0 && stored_record(rows, parent) is None,
        place_for(rows, None) == 0,
{
    lemma_row_of(rows, parent, 0);
}

/// Whether a list shows a thread.
pub open spec fn shows_thread(list: ListModel, id: i64) -> bool {
    exists|i: int| 0 <= i < list.rows.len() && (#[trigger] list.rows[i]).id == id
}

/// A thread is found in the first list that shows it.
pub proof fn lemma_list_with(lists: Seq<ListModel>, id: i64, from: int)
    requires
        0 <= from <= lists.len(),
    ensures
        match list_with(lists, id, from) {
            Some(i) => {
                &&& from <= i < lists.len()
                &&& shows_thread(lists[i], id)
                &&& forall|j: int| from <= j < i ==> !shows_thread(#[trigger] lists[j], id)
            },
            None => forall|j: int| from <= j < lists.len() ==> !shows_thread(#[trigger] lists[j], id),
        },
    decreases lists.len() - from,
{
    if from < lists.len() {
        lemma_row_of(lists[from].rows, id, 0);
        if row_of(lists[from].rows, id, 0) is None {
            lemma_list_with(lists, id, from + 1);
        }
    }
}

/// Whether a text is there and shows something.
pub open spec fn is_there(text: Option<Seq<char>>) -> bool {
    text is Some && !is_blank(text->0)
}

proof fn lemma_is_there(text: Option<Seq<char>>)
    ensures
        trimmed_text(text) is Some <==> is_there(text),
        visible_text(text) is Some <==> is_there(text),
        is_there(text) ==> trimmed_text(text) == Some(trimmed(text->0)) && visible_text(text)
            == Some(text->0),
{
    if text is Some {
        lemma_trimmed_blank(text->0);
    }
}

/// Icons are shown where there is a profile with a home of its own and a thread with a link.
pub proof fn lemma_icons_shown(rows: Seq<Option<ThreadModel>>, t: ThreadModel)
    ensures
        is_linked(t) <==> is_there(t.remote) || is_there(t.account_type) || is_there(
            t.account_email,
        ),
        !icons_shown(rows, false),
        icons_shown(rows, true) <==> exists|i: int|
            0 <= i < rows.len() && rows[i] is Some && is_linked((#[trigger] rows[i])->0),
{
    lemma_is_there(t.remote);
    lemma_is_there(t.account_type);
    lemma_is_there(t.account_email);
}

/// Whether the threads of a workspace have a link is told by the last entry of the workspace; one
/// without an entry is not told of.
pub proof fn lemma_visibility(workspaces: Seq<WorkspaceThreads>, w: WorkspaceThreads, id: i64)
    ensures
        visibility_of(workspaces.push(w)).contains_key(w.workspace_id),
        visibility_of(workspaces.push(w))[w.workspace_id] == some_linked(
            thread_models(w.threads@),
        ),
        id != w.workspace_id ==> (visibility_of(workspaces.push(w)).contains_key(id)
            == visibility_of(workspaces).contains_key(id) && visibility_of(workspaces.push(w))[id]
            == visibility_of(workspaces)[id]),
        visibility_of(seq![]) == Map::<i64, bool>::empty(),
{
    assert(workspaces.push(w).drop_last() =~= workspaces);
}

/// A thread runs in its worktree while that is active, else in its workspace; a worktree is
/// cleaned up where there is one, and marked as gone where it is active too.
pub proof fn lemma_worktree(t: ThreadModel, workspace: Seq<char>)
    ensures
        t.worktree_active && is_there(t.worktree) ==> runtime_workspace(t, workspace) == trimmed(
            t.worktree->0,
        ),
        !t.worktree_active || !is_there(t.worktree) ==> runtime_workspace(t, workspace)
            == workspace,
        is_there(t.worktree) ==> worktree_cleanup(t) == (Some(trimmed(t.worktree->0)), true),
        !is_there(t.worktree) ==> worktree_cleanup(t) == (None::<Seq<char>>, t.worktree_active),
{
    lemma_is_there(t.worktree);
}

/// A workspace is called by the last name in its path, else by the path, else by none.
pub proof fn lemma_workspace_name(path: Option<Seq<char>>, name: Seq<char>)
    ensures
        !is_there(path) ==> workspace_name(path, Some(name)) == "No workspace"@,
        is_there(path) && !is_blank(name) ==> workspace_name(path, Some(name)) == name,
        is_there(path) && is_blank(name) ==> workspace_name(path, Some(name)) == trimmed(path->0),
        is_there(path) ==> workspace_name(path, None) == trimmed(path->0),
{
    lemma_is_there(path);
    lemma_trimmed_blank(name);
}

/// An icon that is there is shown, without the whitespace around it; else a person is.
pub proof fn lemma_profile_icon(icon: Option<Seq<char>>)
    ensures
        is_there(icon) ==> profile_icon(icon) == trimmed(icon->0),
        !is_there(icon) ==> profile_icon(icon) == "person-symbolic"@,
{
    lemma_is_there(icon);
}

// ---------------------------------------------------------------------------------------------
// Selecting
// ---------------------------------------------------------------------------------------------
/// Selecting a thread that the runtime knows shows it where it is locked, and resumes it else. One
/// that the runtime does not know is started only where nothing waits for it, nothing is locked
/// and nothing of it is stored; what has turns already is refused.
pub proof fn lemma_select_action(f: SelectFacts, id: Seq<char>)
    ensures
        f.latest is Some && f.latest->0.remote_thread_id is Some && f.latest->0.remote_thread_id->0@
            == id ==> select_action(f) == if f.is_locked {
            SelectModel::ShowLocked(id)
        } else {
            SelectModel::Resume(id)
        },
        (f.latest is None || f.latest->0.remote_thread_id is None) && f.current_thread_id is Some
            && f.current_thread_id->0@ == id ==> select_action(f) == if f.is_locked {
            SelectModel::ShowLocked(id)
        } else {
            SelectModel::Resume(id)
        },
        (f.latest is None || f.latest->0.remote_thread_id is None) && f.current_thread_id is None
            ==> {
            let waits = f.pending_profile_thread_id is Some && parsed_i64(
                f.pending_profile_thread_id->0@,
            ) == Some(f.local_thread_id as int);
            &&& waits || f.is_locked ==> select_action(f) == SelectModel::ShowNothing
            &&& !waits && !f.is_locked && f.has_stored_turns ==> select_action(f)
                == SelectModel::Refuse
            &&& !waits && !f.is_locked && !f.has_stored_turns && f.refreshed_thread_id is Some
                ==> select_action(f) == SelectModel::Show(f.refreshed_thread_id->0@)
            &&& !waits && !f.is_locked && !f.has_stored_turns && f.refreshed_thread_id is None
                ==> select_action(f) == SelectModel::Start
        },
        f.latest is Some ==> (lacks_account(f) <==> f.latest->0.remote_account_type is None
            && f.latest->0.remote_account_email is None),
        f.latest is None ==> lacks_account(f) != f.had_account_identity,
{
}

/// An error that tells that a thread is not there yet.
pub proof fn lemma_early_error(err: Seq<char>)
    ensures
        is_early_error(err) <==> {
            ||| says(err, "no rollout found for thread id"@)
            ||| says(err, "not materialized yet"@) && says(err, "includeturns is unavailable"@)
            ||| says(err, "thread not loaded"@)
        },
{
    let low = ascii_lower(err);
    lemma_contains_text(low, "no rollout found for thread id"@);
    lemma_contains_text(low, "not materialized yet"@);
    lemma_contains_text(low, "includeturns is unavailable"@);
    lemma_contains_text(low, "thread not loaded"@);
}

/// After a resume the account is stored where it is not known, but not for another thread than the
/// one asked for; an error is reported unless the thread is only not there yet.
pub proof fn lemma_resumed(
    expected: Seq<char>,
    other: Seq<char>,
    err: Seq<char>,
    needs_account: bool,
)
    requires
        other != expected,
    ensures
        resume_follow_up(expected, Ok(expected), true) == ResumeFollowUp::StoreAccount,
        resume_follow_up(expected, Ok(expected), false) == ResumeFollowUp::Nothing,
        resume_follow_up(expected, Ok(other), needs_account) == ResumeFollowUp::KeepMapping,
        is_early_error(err) ==> resume_follow_up(expected, Err(err), needs_account)
            == ResumeFollowUp::Nothing,
        !is_early_error(err) ==> resume_follow_up(expected, Err(err), needs_account)
            == ResumeFollowUp::Report,
{
}

/// Closing a thread leaves another one active, unless it was the last one that was.
pub proof fn lemma_others_stay_active(
    id: i64,
    remote: Option<Seq<char>>,
    last_active: Option<Seq<char>>,
    active: Option<Seq<char>>,
)
    ensures
        active != remote && (last_active is None || parsed_i64(last_active->0) != Some(id as int))
            ==> active_after_close(id, remote, last_active, active) == active,
        last_active is Some && parsed_i64(last_active->0) == Some(id as int)
            ==> active_after_close(id, remote, last_active, active) is None,
        active == remote ==> active_after_close(id, remote, last_active, active) is None,
{
}

/// The thread that a row shows is the one it knows, else the one on record.
pub proof fn lemma_seen_thread(current: Option<Seq<char>>, record: Option<ThreadModel>)
    ensures
        current is Some ==> seen_thread(current, record) == current,
        current is None && record is Some ==> seen_thread(current, record) == record->0.remote,
        current is None && record is None ==> seen_thread(current, record) is None,
{
}

// ---------------------------------------------------------------------------------------------
// Ages
// ---------------------------------------------------------------------------------------------
/// An age is told in the largest unit of which at least one has passed, by how many whole ones
/// have; under a minute it is now.
pub proof fn lemma_rounded_age(seconds: int, n: nat)
    ensures
        seconds < 60 ==> rounded_age(seconds) == "now"@ && ago(seconds) == "now"@,
        1 <= n < 60 && n * 60 <= seconds < (n + 1) * 60 ==> rounded_age(seconds) == decimal(n)
            + "m"@,
        1 <= n < 24 && n * 3600 <= seconds < (n + 1) * 3600 ==> rounded_age(seconds) == decimal(n)
            + "h"@,
        1 <= n < 7 && n * 86400 <= seconds < (n + 1) * 86400 ==> rounded_age(seconds) == decimal(n)
            + "d"@,
        1 <= n && n * 604800 <= seconds < (n + 1) * 604800 ==> rounded_age(seconds) == decimal(n)
            + "w"@,
        seconds >= 60 ==> ago(seconds) == rounded_age(seconds) + " ago"@,
{
    if 1 <= n < 60 && n * 60 <= seconds < (n + 1) * 60 {
        assert(seconds / 60 == n);
    }
    if 1 <= n < 24 && n * 3600 <= seconds < (n + 1) * 3600 {
        assert(seconds / 3600 == n);
    }
    if 1 <= n < 7 && n * 86400 <= seconds < (n + 1) * 86400 {
        assert(seconds / 86400 == n);
    }
    if 1 <= n && n * 604800 <= seconds < (n + 1) * 604800 {
        assert(seconds / 604800 == n);
    }
}

/// The time that has passed is counted from a moment after the epoch; what comes before it counts
/// as the epoch.
pub proof fn lemma_seconds_since(now: i64, then_at: i64, seconds: u64)
    ensures
        then_at >= 0 ==> then_at + seconds_since(now, then_at) == now,
        then_at < 0 ==> seconds_since(now, then_at) == now,
        modified_label(Modified::SecondsAgo(seconds)) == rounded_age(seconds as int),
        modified_label(Modified::InTheFuture) == rounded_age(0),
{
}

// ---------------------------------------------------------------------------------------------
// Dragging
// ---------------------------------------------------------------------------------------------
/// What is dropped on a pane is opened where it is a thread that is on record, in the workspace it
/// was dragged from; a pane that is dragged is no thread.
pub proof fn lemma_accepted_drop(
    db: ThreadDirectory,
    thread: Seq<char>,
    workspace: Option<Seq<char>>,
)
    ensures
        accepted_drop(db, false, Some((Some(thread), workspace))) is Some <==> db.knows(thread),
        db.knows(thread) ==> accepted_drop(db, false, Some((Some(thread), workspace))) == Some(
            (thread, workspace),
        ),
        accepted_drop(db, true, Some((Some(thread), workspace))) is None,
        accepted_drop(db, false, Some((None, workspace))) is None,
        accepted_drop(db, false, None) is None,
{
}

/// A pane is titled as its thread is, where that has a title.
pub proof fn lemma_pane_titles(pane_id: u64, title: Option<Seq<char>>)
    ensures
        is_there(title) ==> shown_title(title) == title->0 && dragged_title(pane_id, title)
            == title->0,
        !is_there(title) ==> shown_title(title) == "New thread"@ && dragged_title(pane_id, title)
            == "Pane "@ + decimal(pane_id as nat),
{
    lemma_is_there(title);
}

pub open spec fn shows_other(thread: Seq<char>) -> spec_fn(JsonTree) -> bool {
    |pane: JsonTree| pane_thread(pane) != Some(thread)
}

/// The panes that are left without a thread are those of other threads, in their order.
pub proof fn lemma_panes_left(panes: Seq<JsonTree>, thread: Seq<char>)
    ensures
        panes_without(panes, thread) == panes.filter(shows_other(thread)),
    decreases panes.len(),
{
    reveal(Seq::filter);
    if panes.len() > 0 {
        lemma_panes_left(panes.drop_last(), thread);
    }
}

/// The thread of a stored pane stands under its name, and under the older name only where there is
/// nothing under the new one.
pub proof fn lemma_pane_thread(pane: JsonTree)
    ensures
        field(pane, "threadId"@) is Some ==> pane_thread(pane) == field_str(pane, "threadId"@),
        field(pane, "threadId"@) is None ==> pane_thread(pane) == field_str(pane, "codexThreadId"@),
{
}

/// The focus stays on its pane while there is one, goes to the first pane else, and to pane one
/// where there is none.
pub proof fn lemma_focus_among(panes: Seq<JsonTree>, focused: u64, i: int)
    ensures
        0 <= i < panes.len() && field_u64(panes[i], "id"@) == Some(focused) ==> focus_among(
            panes,
            focused,
        ) == focused,
        panes.len() > 0 && (forall|j: int|
            0 <= j < panes.len() ==> field_u64(#[trigger] panes[j], "id"@) != Some(focused))
            && field_u64(panes[0], "id"@) is Some ==> Some(focus_among(panes, focused))
            == field_u64(panes[0], "id"@),
        panes.len() == 0 ==> focus_among(panes, focused) == 1,
{
}

/// A switch is on where its setting is a one or says so in any case of letters; without a setting
/// it stands as it does from the start.
pub proof fn lemma_switch(settings: Map<Seq<char>, Seq<char>>, key: Seq<char>, start: bool)
    ensures
        settings.contains_key(key) ==> (switch_setting(settings, key, start) <==> settings[key]
            == "1"@ || ascii_lower(settings[key]) == "true"@),
        !settings.contains_key(key) ==> switch_setting(settings, key, start) == start,
{
    reveal_strlit("true");
    assert(ascii_lower("true"@) =~= "true"@);
}

/// Without a selection every list stays as it is but for the mark; a list that is brought up to
/// date changes in nothing but its icons.
pub proof fn lemma_lists_stay(
    lists: Seq<ListModel>,
    i: int,
    stored: Seq<ThreadModel>,
    own_home: bool,
)
    requires
        0 <= i < lists.len(),
    ensures
        deselected(lists).len() == lists.len(),
        deselected(lists)[i].selected is None,
        deselected(lists)[i].rows == lists[i].rows,
        deselected(lists)[i].workspace == lists[i].workspace,
        deselected(lists)[i].expanded == lists[i].expanded,
        deselected(lists)[i].icons == lists[i].icons,
        lists[i].refreshed(stored, own_home).rows == lists[i].rows,
        lists[i].refreshed(stored, own_home).selected == lists[i].selected,
        lists[i].refreshed(stored, own_home).expanded == lists[i].expanded,
        lists[i].refreshed(stored, own_home).icons <==> own_home && exists|k: int|
            0 <= k < lists[i].rows.len() && stored_record(
                stored,
                (#[trigger] lists[i].rows[k]).id,
            ) is Some && is_linked(stored_record(stored, lists[i].rows[k].id)->0),
{
    let rows = crate::thread_list::stored_rows(lists[i].rows, stored);
    if lists[i].refreshed(stored, own_home).icons {
        let k = choose|k: int|
            0 <= k < rows.len() && crate::thread_rows::row_is_linked(#[trigger] rows[k]);
        assert(lists[i].rows[k].id == lists[i].rows[k].id);
    }
    if own_home && exists|k: int|
        0 <= k < lists[i].rows.len() && stored_record(
            stored,
            (#[trigger] lists[i].rows[k]).id,
        ) is Some && is_linked(stored_record(stored, lists[i].rows[k].id)->0) {
        let k = choose|k: int|
            0 <= k < lists[i].rows.len() && stored_record(
                stored,
                (#[trigger] lists[i].rows[k]).id,
            ) is Some && is_linked(stored_record(stored, lists[i].rows[k].id)->0);
        assert(crate::thread_rows::row_is_linked(rows[k]));
    }
}

/// A thread that is dragged is named by its identifier and the workspace it comes from; a pane by
/// its number, where it says that it is one.
pub proof fn lemma_dragged(doc: JsonTree)
    ensures
        thread_drop_of(doc).0 == field_str(doc, "codexThreadId"@),
        thread_drop_of(doc).1 == field_str(doc, "workspacePath"@),
        field_str(doc, "kind"@) == Some("paneReorder"@) ==> pane_reorder_of(doc) == field_u64(
            doc,
            "paneId"@,
        ),
        field_str(doc, "kind"@) != Some("paneReorder"@) ==> pane_reorder_of(doc) is None,
{
}

/// A thread that is dragged carries its number here, its identifier under the new name and under
/// the older one, and its workspace; one without an identifier carries none.
pub proof fn lemma_thread_payload(
    local_id: i64,
    remote: Seq<char>,
    workspace: Seq<char>,
    pane_id: u64,
)
    ensures
        ({
            let doc = thread_payload_tree(local_id, Some(remote), workspace);
            &&& local_id >= 0 ==> field(doc, "localThreadId"@) == Some(
                JsonTree::UInt(local_id as u64),
            )
            &&& local_id < 0 ==> field(doc, "localThreadId"@) == Some(JsonTree::Int(local_id))
            &&& field_str(doc, "threadId"@) == Some(remote)
            &&& field_str(doc, "codexThreadId"@) == Some(remote)
            &&& field_str(doc, "workspacePath"@) == Some(workspace)
        }),
        ({
            let doc = thread_payload_tree(local_id, None, workspace);
            &&& field(doc, "threadId"@) == Some(JsonTree::Null)
            &&& field(doc, "codexThreadId"@) == Some(JsonTree::Null)
            &&& field_str(doc, "workspacePath"@) == Some(workspace)
        }),
        field_str(pane_payload_tree(pane_id), "kind"@) == Some("paneReorder"@),
        field_u64(pane_payload_tree(pane_id), "paneId"@) == Some(pane_id),
{
    reveal_strlit("localThreadId");
    reveal_strlit("threadId");
    reveal_strlit("codexThreadId");
    reveal_strlit("workspacePath");
    reveal_strlit("kind");
    reveal_strlit("paneId");
    assert("codexThreadId"@[0] == 'c' && "workspacePath"@[0] == 'w' && "localThreadId"@[0] == 'l'
        && "threadId"@[0] == 't');
    assert("kind"@.len() == 4 && "paneId"@.len() == 6);
}

} // verus!
