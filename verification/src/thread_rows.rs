//! The rows of the thread list: their names, icons and places, and what a click on one does.
use crate::layout_store::is_visible;
use crate::lines::ascii_lowercase;
use crate::number::{decimal_i64, parse_i64};
use crate::paths::file_name_of;
use crate::text::{concat, contains, owned, same, strip_prefix, trim};
use crate::threads::{copy_option, ThreadRecord};
use vstd::prelude::*;
#[allow(unused_imports)]
use crate::layout_store::{text_of_option, trimmed_text};
#[allow(unused_imports)]
use crate::lines::ascii_lower;
#[allow(unused_imports)]
use crate::number::{lemma_decimal_round_trip, parsed_i64, signed_decimal};
#[allow(unused_imports)]
use crate::paths::{last_name, reads_alike};
#[allow(unused_imports)]
use crate::text::{contains_text, str_option, trimmed, without_prefix};
#[allow(unused_imports)]
use crate::threads::ThreadModel;

verus! {

// ---------------------------------------------------------------------------------------------
// Names and places of rows
// ---------------------------------------------------------------------------------------------
pub open spec fn row_name(id: int) -> Seq<char> {
    "thread-"@ + signed_decimal(id)
}

/// The name of the row of a thread.
pub fn thread_row_name(thread_id: i64) -> (name: String)
    ensures
        name@ == row_name(thread_id as int),
{
    concat("thread-", decimal_i64(thread_id).as_str())
}

pub open spec fn row_id(name: Seq<char>) -> Option<int> {
    match without_prefix(name, "thread-"@) {
        Some(rest) => parsed_i64(rest),
        None => None,
    }
}

/// The thread whose row has a name.
pub fn local_thread_id_from_row(name: &str) -> (r: Option<i64>)
    ensures
        match r {
            Some(id) => row_id(name@) == Some(id as int),
            None => row_id(name@) is None,
        },
{
    match strip_prefix(name, "thread-") {
        Some(rest) => parse_i64(rest.as_str()),
        None => None,
    }
}

/// The name of the row of a thread leads back to the thread.
pub proof fn lemma_row_name_round_trip(id: i64)
    ensures
        row_id(row_name(id as int)) == Some(id as int),
{
    lemma_decimal_round_trip(id as int);
    let prefix = "thread-"@;
    let name = row_name(id as int);
    assert(name.subrange(0, prefix.len() as int) =~= prefix);
    assert(name.take(prefix.len() as int) =~= prefix);
    assert(name.skip(prefix.len() as int) =~= signed_decimal(id as int));
}

/// The index of the first row with a name.
pub open spec fn row_index(rows: Seq<Seq<char>>, name: Seq<char>) -> Option<int>
    decreases rows.len(),
{
    if rows.len() == 0 {
        None
    } else if rows.first() == name {
        Some(0)
    } else {
        match row_index(rows.drop_first(), name) {
            Some(i) => Some(i + 1),
            None => None,
        }
    }
}

pub fn find_row_by_widget_name(rows: &Vec<String>, target_name: &str) -> (r: Option<usize>)
    ensures
        match r {
            Some(i) => row_index(rows.deep_view(), target_name@) == Some(i as int) && i
                < rows@.len(),
            None => row_index(rows.deep_view(), target_name@) is None,
        },
{
    let ghost all = rows.deep_view();
    let mut i: usize = 0;
    assert(all.skip(0) =~= all);
    while i < rows.len()
        invariant
            i <= rows@.len(),
            all == rows.deep_view(),
            row_index(all, target_name@) == (match row_index(all.skip(i as int), target_name@) {
                Some(k) => Some(k + i),
                None => None,
            }),
        decreases rows@.len() - i,
    {
        assert(all.skip(i as int).first() == rows@[i as int]@);
        assert(all.skip(i as int).drop_first() =~= all.skip(i + 1));
        if same(rows[i].as_str(), target_name) {
            return Some(i);
        }
        i = i + 1;
    }
    assert(all.skip(i as int).len() == 0);
    None
}

/// Where the row of a new thread goes: below the row of the thread that it was forked from, or on
/// top.
pub open spec fn insert_place(rows: Seq<Seq<char>>, parent: Option<i64>) -> int {
    match parent {
        Some(id) => match row_index(rows, row_name(id as int)) {
            Some(i) => i + 1,
            None => 0,
        },
        None => 0,
    }
}

pub fn insert_index(rows: &Vec<String>, parent_thread_id: Option<i64>) -> (at: usize)
    ensures
        at == insert_place(rows.deep_view(), parent_thread_id),
        at <= rows@.len(),
{
    match parent_thread_id {
        Some(id) => match find_row_by_widget_name(rows, thread_row_name(id).as_str()) {
            Some(i) => {
                assert(i < rows.len());
                i + 1
            },
            None => 0,
        },
        None => 0,
    }
}

/// Which rows are marked as selected: those with the name, if there is one.
pub open spec fn selected_marks(rows: Seq<Seq<char>>, target: Option<Seq<char>>) -> Seq<bool> {
    Seq::new(rows.len(), |i: int| target == Some(rows[i]))
}

pub fn selected_rows(rows: &Vec<String>, target_name: Option<&str>) -> (marks: Vec<bool>)
    ensures
        marks@ == selected_marks(
            rows.deep_view(),
            str_option(target_name),
        ),
{
    let ghost all = rows.deep_view();
    let ghost target = str_option(target_name);
    let mut marks: Vec<bool> = Vec::new();
    let mut i: usize = 0;
    while i < rows.len()
        invariant
            i <= rows@.len(),
            all == rows.deep_view(),
            target == str_option(target_name),
            marks@ =~= selected_marks(all, target).take(i as int),
        decreases rows@.len() - i,
    {
        assert(all[i as int] == rows@[i as int]@);
        let mark = match target_name {
            Some(t) => same(rows[i].as_str(), t),
            None => false,
        };
        marks.push(mark);
        i = i + 1;
    }
    marks
}

// ---------------------------------------------------------------------------------------------
// Icons
// ---------------------------------------------------------------------------------------------
/// Whether a thread belongs to an account: it has a remote identifier, an account type or an
/// account address that is not blank.
pub open spec fn is_linked(t: ThreadModel) -> bool {
    trimmed_text(t.remote) is Some || trimmed_text(t.account_type) is Some || trimmed_text(
        t.account_email,
    ) is Some
}

fn shows(text: &Option<String>) -> (r: bool)
    ensures
        r == (trimmed_text(text_of_option(*text)) is Some),
{
    match text {
        Some(s) => is_visible(s.as_str()),
        None => false,
    }
}

pub fn thread_has_linked_profile(thread: &ThreadRecord) -> (r: bool)
    ensures
        r == is_linked(thread.model()),
{
    shows(&thread.remote_thread_id) || shows(&thread.remote_account_type) || shows(
        &thread.remote_account_email,
    )
}

/// The icon of a profile; a person where it has none.
pub open spec fn profile_icon(icon: Option<Seq<char>>) -> Seq<char> {
    match trimmed_text(icon) {
        Some(name) => name,
        None => "person-symbolic"@,
    }
}

pub fn profile_icon_name_for_profile(icon_name: &Option<String>) -> (name: String)
    ensures
        name@ == profile_icon(text_of_option(*icon_name)),
{
    match icon_name {
        Some(icon) => {
            let name = trim(icon.as_str());
            if name.as_str().is_empty() {
                owned("person-symbolic")
            } else {
                name
            }
        },
        None => owned("person-symbolic"),
    }
}

/// The icon of the profile of a thread, where the thread belongs to an account.
pub fn profile_icon_name_for_thread(thread: &ThreadRecord, icon_name: &Option<String>) -> (r: Option<
    String,
>)
    ensures
        match r {
            Some(name) => is_linked(thread.model()) && name@ == profile_icon(
                text_of_option(*icon_name),
            ),
            None => !is_linked(thread.model()),
        },
{
    if thread_has_linked_profile(thread) {
        Some(profile_icon_name_for_profile(icon_name))
    } else {
        None
    }
}

pub open spec fn is_own_home(home: Seq<char>, system_home: Seq<char>) -> bool {
    trimmed(home) != trimmed(system_home)
}

/// Whether a profile has a home of its own.
pub open spec fn has_own_home(homes: Seq<Seq<char>>, system_home: Seq<char>) -> bool {
    exists|i: int| 0 <= i < homes.len() && #[trigger] is_own_home(homes[i], system_home)
}

/// Whether a profile has a home of its own; so it is taken to be where the profiles cannot be read.
pub fn has_non_system_profile(homes: &Option<Vec<String>>, system_home: &str) -> (r: bool)
    ensures
        match *homes {
            Some(list) => r == has_own_home(list.deep_view(), system_home@),
            None => r,
        },
{
    match homes {
        None => true,
        Some(list) => {
            let system = trim(system_home);
            let mut i: usize = 0;
            while i < list.len()
                invariant
                    i <= list@.len(),
                    *homes == Some(*list),
                    system@ == trimmed(system_home@),
                    forall|j: int|
                        0 <= j < i ==> !#[trigger] is_own_home(list.deep_view()[j], system_home@),
                decreases list@.len() - i,
            {
                assert(list.deep_view()[i as int] == list@[i as int]@);
                let home = trim(list[i].as_str());
                if !same(home.as_str(), system.as_str()) {
                    let ghost all = list.deep_view();
                    assert(is_own_home(all[i as int], system_home@));
                    return true;
                }
                i = i + 1;
            }
            false
        },
    }
}

pub open spec fn row_records(rows: Seq<Option<ThreadRecord>>) -> Seq<Option<ThreadModel>> {
    Seq::new(
        rows.len(),
        |i: int|
            match rows[i] {
                Some(t) => Some(t.model()),
                None => None,
            },
    )
}

/// Whether the row of a thread can show an icon.
pub open spec fn row_is_linked(row: Option<ThreadModel>) -> bool {
    match row {
        Some(t) => is_linked(t),
        None => false,
    }
}

/// Whether profile icons are shown at all: one of the threads belongs to an account, and some
/// profile has a home of its own.
pub open spec fn icons_shown(rows: Seq<Option<ThreadModel>>, own_home: bool) -> bool {
    own_home && exists|i: int| 0 <= i < rows.len() && row_is_linked(#[trigger] rows[i])
}

/// What the profile icons of the rows are: whether they are shown at all, and for each row whether
/// its own is. A row has no record where its name or the thread is unknown.
pub fn profile_icon_visibility(rows: &Vec<Option<ThreadRecord>>, non_system_profile: bool) -> (r: (
    bool,
    Vec<bool>,
))
    ensures
        r.0 == icons_shown(row_records(rows@), non_system_profile),
        r.1@ == Seq::new(
            rows@.len(),
            |i: int|
                icons_shown(row_records(rows@), non_system_profile) && row_is_linked(
                    row_records(rows@)[i],
                ),
        ),
{
    let ghost all = row_records(rows@);
    let mut any = false;
    let mut i: usize = 0;
    while i < rows.len()
        invariant
            i <= rows@.len(),
            all == row_records(rows@),
            any == exists|j: int| 0 <= j < i && row_is_linked(#[trigger] all[j]),
        decreases rows@.len() - i,
    {
        assert(all[i as int] == (match rows@[i as int] {
            Some(t) => Some(t.model()),
            None => None,
        }));
        let here = match &rows[i] {
            Some(thread) => thread_has_linked_profile(thread),
            None => false,
        };
        any = any || here;
        i = i + 1;
    }
    let show = any && non_system_profile;
    let mut marks: Vec<bool> = Vec::new();
    let mut k: usize = 0;
    while k < rows.len()
        invariant
            k <= rows@.len(),
            all == row_records(rows@),
            marks@.len() == k,
            forall|j: int|
                0 <= j < k ==> #[trigger] marks@[j] == (show && row_is_linked(all[j])),
        decreases rows@.len() - k,
    {
        assert(all[k as int] == (match rows@[k as int] {
            Some(t) => Some(t.model()),
            None => None,
        }));
        let here = match &rows[k] {
            Some(thread) => thread_has_linked_profile(thread),
            None => false,
        };
        marks.push(show && here);
        k = k + 1;
    }
    (show, marks)
}

/// For each workspace, whether one of its threads belongs to an account.
pub open spec fn some_linked(threads: Seq<ThreadModel>) -> bool {
    exists|i: int| 0 <= i < threads.len() && is_linked(#[trigger] threads[i])
}

/// The threads of one workspace.
#[derive(Debug)]
pub struct WorkspaceThreads {
    pub workspace_id: i64,
    pub threads: Vec<ThreadRecord>,
}

/// The visibility that holds for a workspace: that of the last entry for it.
pub open spec fn visibility_of(workspaces: Seq<WorkspaceThreads>) -> Map<i64, bool>
    decreases workspaces.len(),
{
    if workspaces.len() == 0 {
        Map::empty()
    } else {
        visibility_of(workspaces.drop_last()).insert(
            workspaces.last().workspace_id,
            some_linked(crate::threads::thread_models(workspaces.last().threads@)),
        )
    }
}

/// For each workspace, whether the sidebar shows profile icons in it.
pub fn sidebar_profile_icon_visibility_by_workspace_id(workspaces: &Vec<WorkspaceThreads>) -> (r:
    std::collections::HashMap<i64, bool>)
    ensures
        r@ == visibility_of(workspaces@),
{
    broadcast use vstd::std_specs::hash::group_hash_axioms;

    let mut shown: std::collections::HashMap<i64, bool> = std::collections::HashMap::new();
    let mut i: usize = 0;
    assert(workspaces@.take(0) =~= Seq::empty());
    while i < workspaces.len()
        invariant
            i <= workspaces@.len(),
            shown@ =~= visibility_of(workspaces@.take(i as int)),
        decreases workspaces@.len() - i,
    {
        let workspace = &workspaces[i];
        let ghost all = crate::threads::thread_models(workspace.threads@);
        let mut linked = false;
        let mut k: usize = 0;
        while k < workspace.threads.len()
            invariant
                k <= workspace.threads@.len(),
                all == crate::threads::thread_models(workspace.threads@),
                linked == exists|j: int| 0 <= j < k && is_linked(#[trigger] all[j]),
            decreases workspace.threads@.len() - k,
        {
            assert(all[k as int] == workspace.threads@[k as int].model());
            let here = thread_has_linked_profile(&workspace.threads[k]);
            linked = linked || here;
            k = k + 1;
        }
        shown.insert(workspace.workspace_id, linked);
        assert(workspaces@.take(i + 1).drop_last() =~= workspaces@.take(i as int));
        assert(workspaces@.take(i + 1).last() == workspaces@[i as int]);
        i = i + 1;
    }
    assert(workspaces@.take(i as int) =~= workspaces@);
    shown
}

// ---------------------------------------------------------------------------------------------
// The workspace of a thread
// ---------------------------------------------------------------------------------------------
/// The directory that a thread works in: its worktree while that is active, else the workspace.
pub open spec fn runtime_workspace(t: ThreadModel, workspace: Seq<char>) -> Seq<char> {
    match trimmed_text(t.worktree) {
        Some(path) => if t.worktree_active {
            path
        } else {
            workspace
        },
        None => workspace,
    }
}

pub fn thread_runtime_workspace_path(thread: &ThreadRecord, workspace_path: &str) -> (r: String)
    ensures
        r@ == runtime_workspace(thread.model(), workspace_path@),
{
    match &thread.worktree_path {
        Some(path) => {
            let trimmed_path = trim(path.as_str());
            if !trimmed_path.as_str().is_empty() && thread.worktree_active {
                trimmed_path
            } else {
                owned(workspace_path)
            }
        },
        None => owned(workspace_path),
    }
}

/// The name a workspace is shown under, given the last component of its path.
pub open spec fn workspace_name(path: Option<Seq<char>>, file_name: Option<Seq<char>>) -> Seq<char> {
    match trimmed_text(path) {
        None => "No workspace"@,
        Some(p) => match file_name {
            Some(name) => if trimmed(name).len() > 0 {
                name
            } else {
                p
            },
            None => p,
        },
    }
}

pub fn workspace_name_for(path: Option<&str>, file_name: Option<&str>) -> (name: String)
    ensures
        name@ == workspace_name(
            str_option(path),
            str_option(file_name),
        ),
{
    match path {
        None => owned("No workspace"),
        Some(p) => {
            let shown = trim(p);
            if shown.as_str().is_empty() {
                return owned("No workspace");
            }
            match file_name {
                Some(name) => if is_visible(name) {
                    owned(name)
                } else {
                    shown
                },
                None => shown,
            }
        },
    }
}

/// The name a workspace is shown under: the last component of its path.
pub fn workspace_display_name(path: Option<&str>) -> (name: String)
    ensures
        match trimmed_text(str_option(path)) {
            Some(p) => reads_alike(p) ==> name@ == workspace_name(str_option(path), last_name(p)),
            None => name@ == workspace_name(str_option(path), None),
        },
        exists|file_name: Option<Seq<char>>|
            name@ == #[trigger] workspace_name(str_option(path), file_name) && (
            file_name matches Some(n) ==> path matches Some(p) && contains_text(trimmed(p@), n)),
{
    let found = match path {
        Some(p) => file_name_of(trim(p).as_str()),
        None => None,
    };
    let shown = match &found {
        Some(file_name) => workspace_name_for(path, Some(file_name.as_str())),
        None => workspace_name_for(path, None),
    };
    assert(shown@ == workspace_name(str_option(path), text_of_option(found)));
    shown
}

// ---------------------------------------------------------------------------------------------
// Selecting a row
// ---------------------------------------------------------------------------------------------
/// Whether an error only says that the runtime has not stored the thread yet.
pub open spec fn is_early_error(err: Seq<char>) -> bool {
    let lower = ascii_lower(err);
    contains_text(lower, "no rollout found for thread id"@) || (contains_text(
        lower,
        "not materialized yet"@,
    ) && contains_text(lower, "includeturns is unavailable"@)) || contains_text(
        lower,
        "thread not loaded"@,
    )
}

pub fn is_expected_pre_materialization_error(err: &str) -> (r: bool)
    ensures
        r == is_early_error(err@),
{
    let lower = ascii_lowercase(err);
    let text = lower.as_str();
    contains(text, "no rollout found for thread id") || (contains(text, "not materialized yet")
        && contains(text, "includeturns is unavailable")) || contains(text, "thread not loaded")
}

/// Whether a stored setting names a thread.
pub open spec fn names_thread(setting: Option<Seq<char>>, id: i64) -> bool {
    match setting {
        Some(text) => parsed_i64(text) == Some(id as int),
        None => false,
    }
}

pub fn setting_names_thread(setting: &Option<String>, thread_id: i64) -> (r: bool)
    ensures
        r == names_thread(text_of_option(*setting), thread_id),
{
    match setting {
        Some(text) => match parse_i64(text.as_str()) {
            Some(id) => id == thread_id,
            None => false,
        },
        None => false,
    }
}

/// What is known of a thread when its row is selected.
#[derive(Debug)]
pub struct SelectFacts {
    pub local_thread_id: i64,
    /// The record as it is stored now.
    pub latest: Option<ThreadRecord>,
    /// The remote identifier that the row knew before.
    pub current_thread_id: Option<String>,
    /// Whether the row knew an account of the thread when it was made.
    pub had_account_identity: bool,
    pub is_locked: bool,
    /// The thread that waits for a profile.
    pub pending_profile_thread_id: Option<String>,
    /// Whether turns of the thread are stored here.
    pub has_stored_turns: bool,
    /// The remote identifier as it is stored when everything else was looked at.
    pub refreshed_thread_id: Option<String>,
}

/// What selecting a row leads to.
#[derive(Debug)]
pub enum SelectAction {
    /// The thread is open and locked: nothing more happens.
    ShowLocked(String),
    /// The thread is resumed by the runtime.
    Resume(String),
    /// No thread is shown.
    ShowNothing,
    /// There are stored turns but no remote thread: nothing is started.
    Refuse,
    /// The thread got its remote identifier in the meantime.
    Show(String),
    /// A thread is started by the runtime.
    Start,
}

#[verifier::ext_equal]
pub ghost enum SelectModel {
    ShowLocked(Seq<char>),
    Resume(Seq<char>),
    ShowNothing,
    Refuse,
    Show(Seq<char>),
    Start,
}

impl SelectAction {
    pub open spec fn model(self) -> SelectModel {
        match self {
            SelectAction::ShowLocked(id) => SelectModel::ShowLocked(id@),
            SelectAction::Resume(id) => SelectModel::Resume(id@),
            SelectAction::ShowNothing => SelectModel::ShowNothing,
            SelectAction::Refuse => SelectModel::Refuse,
            SelectAction::Show(id) => SelectModel::Show(id@),
            SelectAction::Start => SelectModel::Start,
        }
    }
}

/// What is done when a row is selected.
#[derive(Debug)]
pub struct SelectDecision {
    pub action: SelectAction,
    /// Whether no thread waits for a profile any longer.
    pub clear_pending: bool,
    /// Whether the account of the thread is stored once it was resumed.
    pub needs_account_backfill: bool,
}

impl SelectFacts {
    pub open spec fn remote(self) -> Option<Seq<char>> {
        let stored = match self.latest {
            Some(t) => text_of_option(t.remote_thread_id),
            None => None,
        };
        match stored {
            Some(id) => Some(id),
            None => text_of_option(self.current_thread_id),
        }
    }

    pub open spec fn is_pending(self) -> bool {
        names_thread(text_of_option(self.pending_profile_thread_id), self.local_thread_id)
    }
}

/// What selecting a row leads to: a thread with a remote identifier is shown, and resumed unless it
/// is locked; one without is started, unless it waits for a profile, is locked, has stored turns or
/// got its identifier in the meantime.
pub open spec fn select_action(f: SelectFacts) -> SelectModel {
    match f.remote() {
        Some(id) => if f.is_locked {
            SelectModel::ShowLocked(id)
        } else {
            SelectModel::Resume(id)
        },
        None => if f.is_pending() || f.is_locked {
            SelectModel::ShowNothing
        } else if f.has_stored_turns {
            SelectModel::Refuse
        } else {
            match text_of_option(f.refreshed_thread_id) {
                Some(id) => SelectModel::Show(id),
                None => SelectModel::Start,
            }
        },
    }
}

pub open spec fn lacks_account(f: SelectFacts) -> bool {
    match f.latest {
        Some(t) => t.remote_account_type is None && t.remote_account_email is None,
        None => !f.had_account_identity,
    }
}

pub fn select_thread(f: &SelectFacts) -> (d: SelectDecision)
    ensures
        d.action.model() == select_action(*f),
        d.clear_pending == (f.remote() is Some && f.is_pending()),
        d.needs_account_backfill == lacks_account(*f),
{
    let pending = setting_names_thread(&f.pending_profile_thread_id, f.local_thread_id);
    let needs_account_backfill = match &f.latest {
        Some(t) => t.remote_account_type.is_none() && t.remote_account_email.is_none(),
        None => !f.had_account_identity,
    };
    let stored = match &f.latest {
        Some(t) => copy_option(&t.remote_thread_id),
        None => None,
    };
    let existing = match stored {
        Some(id) => Some(id),
        None => copy_option(&f.current_thread_id),
    };
    match existing {
        Some(id) => {
            let action = if f.is_locked {
                SelectAction::ShowLocked(id)
            } else {
                SelectAction::Resume(id)
            };
            SelectDecision { action, clear_pending: pending, needs_account_backfill }
        },
        None => {
            let action = if pending || f.is_locked {
                SelectAction::ShowNothing
            } else if f.has_stored_turns {
                SelectAction::Refuse
            } else {
                match &f.refreshed_thread_id {
                    Some(id) => SelectAction::Show(owned(id.as_str())),
                    None => SelectAction::Start,
                }
            };
            SelectDecision { action, clear_pending: false, needs_account_backfill }
        },
    }
}

/// A thread is started by the runtime only where nothing of it exists yet, and nothing is resumed
/// or started for a locked thread.
pub proof fn lemma_select(f: SelectFacts)
    ensures
        select_action(f) is Start ==> f.remote() is None && !f.is_pending() && !f.has_stored_turns
            && f.refreshed_thread_id is None,
        f.is_locked ==> !(select_action(f) is Start) && !(select_action(f) is Resume),
        forall|id: Seq<char>| select_action(f) == SelectModel::Resume(id) ==> f.remote() == Some(id),
{
}

/// What follows the resumption of a thread.
#[derive(Clone, Copy, Debug, PartialEq, Eq, Structural)]
pub enum ResumeFollowUp {
    /// The runtime named another thread: the one asked for stays.
    KeepMapping,
    /// The account of the thread is stored.
    StoreAccount,
    Nothing,
    /// The error is reported.
    Report,
}

pub open spec fn resume_follow_up(
    expected: Seq<char>,
    reply: Result<Seq<char>, Seq<char>>,
    needs_account_backfill: bool,
) -> ResumeFollowUp {
    match reply {
        Ok(resolved) => if resolved != expected {
            ResumeFollowUp::KeepMapping
        } else if needs_account_backfill {
            ResumeFollowUp::StoreAccount
        } else {
            ResumeFollowUp::Nothing
        },
        Err(err) => if is_early_error(err) {
            ResumeFollowUp::Nothing
        } else {
            ResumeFollowUp::Report
        },
    }
}

pub fn after_resume(
    expected: &str,
    reply: &Result<String, String>,
    needs_account_backfill: bool,
) -> (r: ResumeFollowUp)
    ensures
        r == resume_follow_up(
            expected@,
            crate::git_flow::reply_model(*reply),
            needs_account_backfill,
        ),
{
    match reply {
        Ok(resolved) => if !same(resolved.as_str(), expected) {
            ResumeFollowUp::KeepMapping
        } else if needs_account_backfill {
            ResumeFollowUp::StoreAccount
        } else {
            ResumeFollowUp::Nothing
        },
        Err(err) => if is_expected_pre_materialization_error(err.as_str()) {
            ResumeFollowUp::Nothing
        } else {
            ResumeFollowUp::Report
        },
    }
}

/// The thread whose completion is taken as seen when its row is selected.
pub open spec fn seen_thread(
    current: Option<Seq<char>>,
    record: Option<ThreadModel>,
) -> Option<Seq<char>> {
    match current {
        Some(id) => Some(id),
        None => match record {
            Some(t) => t.remote,
            None => None,
        },
    }
}

pub fn thread_to_mark_seen(current: &Option<String>, record: &Option<ThreadRecord>) -> (r: Option<
    String,
>)
    ensures
        text_of_option(r) == seen_thread(
            text_of_option(*current),
            match *record {
                Some(t) => Some(t.model()),
                None => None,
            },
        ),
{
    match current {
        Some(id) => Some(owned(id.as_str())),
        None => match record {
            Some(t) => copy_option(&t.remote_thread_id),
            None => None,
        },
    }
}

// ---------------------------------------------------------------------------------------------
// Titles
// ---------------------------------------------------------------------------------------------
/// The title that is kept for a row: the one on screen, unless it is blank.
pub fn kept_title(observed: &str, cached: &str) -> (r: String)
    ensures
        r@ == (if trimmed(observed@).len() > 0 {
            observed@
        } else {
            cached@
        }),
{
    if is_visible(observed) && !same(observed, cached) {
        owned(observed)
    } else {
        owned(cached)
    }
}

/// The title that a thread gets: the text that was entered, unless it is blank.
pub fn renamed_title(entered: &str) -> (r: Option<String>)
    ensures
        text_of_option(r) == trimmed_text(Some(entered@)),
{
    let title = trim(entered);
    if title.as_str().is_empty() {
        None
    } else {
        Some(title)
    }
}

/// Whether the row of a thread shows that something was completed in it.
pub fn completion_shown(has_completed_unseen: bool, has_active_turn: bool) -> (r: bool)
    ensures
        r == (has_completed_unseen && !has_active_turn),
{
    has_completed_unseen && !has_active_turn
}

// ---------------------------------------------------------------------------------------------
// Closing a thread
// ---------------------------------------------------------------------------------------------
/// What is done about the worktree of a thread that is closed: the checkout at the path is stopped
/// where there is one, and the thread forgets its worktree.
pub open spec fn worktree_cleanup(t: ThreadModel) -> (Option<Seq<char>>, bool) {
    (trimmed_text(t.worktree), trimmed_text(t.worktree) is Some || t.worktree_active)
}

pub fn close_worktree(thread: &ThreadRecord) -> (r: (Option<String>, bool))
    ensures
        (text_of_option(r.0), r.1) == worktree_cleanup(thread.model()),
{
    match &thread.worktree_path {
        Some(path) => {
            let shown = trim(path.as_str());
            if shown.as_str().is_empty() {
                (None, thread.worktree_active)
            } else {
                (Some(shown), true)
            }
        },
        None => (None, thread.worktree_active),
    }
}

/// What is left of the selection once a thread was closed.
#[derive(Debug)]
pub struct AfterClose {
    /// Whether the settings for the selected thread and for the one that waits for a profile are
    /// emptied.
    pub clear_selection: bool,
    pub active_thread_id: Option<String>,
}

pub open spec fn active_after_close(
    id: i64,
    remote: Option<Seq<char>>,
    last_active: Option<Seq<char>>,
    active: Option<Seq<char>>,
) -> Option<Seq<char>> {
    if names_thread(last_active, id) || (active is Some && active == remote) {
        None
    } else {
        active
    }
}

pub fn after_close(
    thread_id: i64,
    remote_thread_id: &Option<String>,
    last_active_thread_id: &Option<String>,
    active_thread_id: &Option<String>,
) -> (r: AfterClose)
    ensures
        r.clear_selection == names_thread(text_of_option(*last_active_thread_id), thread_id),
        text_of_option(r.active_thread_id) == active_after_close(
            thread_id,
            text_of_option(*remote_thread_id),
            text_of_option(*last_active_thread_id),
            text_of_option(*active_thread_id),
        ),
{
    let clear_selection = setting_names_thread(last_active_thread_id, thread_id);
    if clear_selection {
        return AfterClose { clear_selection, active_thread_id: None };
    }
    let closed_active = match (active_thread_id, remote_thread_id) {
        (Some(active), Some(remote)) => same(active.as_str(), remote.as_str()),
        _ => false,
    };
    let active_thread_id = if closed_active {
        None
    } else {
        copy_option(active_thread_id)
    };
    AfterClose { clear_selection, active_thread_id }
}

/// Once a thread was closed it is not the active one.
pub proof fn lemma_closed_is_not_active(
    id: i64,
    remote: Option<Seq<char>>,
    last_active: Option<Seq<char>>,
    active: Option<Seq<char>>,
)
    ensures
        remote is Some ==> active_after_close(id, remote, last_active, active) != remote,
{
}

} // verus!
