//! Runtime profiles as the settings pages show them.
use crate::layout_store::is_visible;
use crate::lines::equal_ignoring_case;
use crate::skills_mcp::profile_is_running;
use crate::text::{concat, concat3, owned, same, trim};
use vstd::prelude::*;
#[allow(unused_imports)]
use crate::layout_store::{text_of_option, trimmed_text};
#[allow(unused_imports)]
use crate::lines::ascii_lower;
#[allow(unused_imports)]
use crate::rollback::names_opencode;
#[allow(unused_imports)]
use crate::skills_mcp::says_running;
#[allow(unused_imports)]
use crate::text::{lemma_trimmed_idempotent, str_option, trimmed, trimmed_end, trimmed_start};

verus! {

// ---------------------------------------------------------------------------------------------
// Icons
// ---------------------------------------------------------------------------------------------
/// How many icons there are to choose from.
pub const PROFILE_ICON_COUNT: usize = 15;

/// An icon that a profile can have, and what it is called.
pub open spec fn icon_choice(i: int) -> (Seq<char>, Seq<char>) {
    if i == 0 {
        ("person-symbolic"@, "Person"@)
    } else if i == 1 {
        ("briefcase-symbolic"@, "Briefcase"@)
    } else if i == 2 {
        ("laptop-symbolic"@, "Laptop"@)
    } else if i == 3 {
        ("computer-symbolic"@, "Computer"@)
    } else if i == 4 {
        ("star-symbolic"@, "Star"@)
    } else if i == 5 {
        ("go-home-symbolic"@, "Home"@)
    } else if i == 6 {
        ("rocket-symbolic"@, "Rocket"@)
    } else if i == 7 {
        ("brain-symbolic"@, "Brain"@)
    } else if i == 8 {
        ("chat-bubble-symbolic"@, "Chat"@)
    } else if i == 9 {
        ("bookmark-symbolic"@, "Bookmark"@)
    } else if i == 10 {
        ("folder-symbolic"@, "Folder"@)
    } else if i == 11 {
        ("target-symbolic"@, "Target"@)
    } else if i == 12 {
        ("shield-symbolic"@, "Shield"@)
    } else if i == 13 {
        ("globe-symbolic"@, "Globe"@)
    } else {
        ("car-side-symbolic"@, "Car"@)
    }
}

pub fn profile_icon_choice(i: usize) -> (r: (&'static str, &'static str))
    requires
        i < PROFILE_ICON_COUNT,
    ensures
        (r.0@, r.1@) == icon_choice(i as int),
{
    if i == 0 {
        ("person-symbolic", "Person")
    } else if i == 1 {
        ("briefcase-symbolic", "Briefcase")
    } else if i == 2 {
        ("laptop-symbolic", "Laptop")
    } else if i == 3 {
        ("computer-symbolic", "Computer")
    } else if i == 4 {
        ("star-symbolic", "Star")
    } else if i == 5 {
        ("go-home-symbolic", "Home")
    } else if i == 6 {
        ("rocket-symbolic", "Rocket")
    } else if i == 7 {
        ("brain-symbolic", "Brain")
    } else if i == 8 {
        ("chat-bubble-symbolic", "Chat")
    } else if i == 9 {
        ("bookmark-symbolic", "Bookmark")
    } else if i == 10 {
        ("folder-symbolic", "Folder")
    } else if i == 11 {
        ("target-symbolic", "Target")
    } else if i == 12 {
        ("shield-symbolic", "Shield")
    } else if i == 13 {
        ("globe-symbolic", "Globe")
    } else {
        ("car-side-symbolic", "Car")
    }
}

/// The first choice from `from` on that is a given icon.
pub open spec fn choice_from(icon: Seq<char>, from: int) -> Option<int>
    decreases PROFILE_ICON_COUNT - from,
{
    if from < 0 || from >= PROFILE_ICON_COUNT {
        None
    } else if icon_choice(from).0 == icon {
        Some(from)
    } else {
        choice_from(icon, from + 1)
    }
}

fn find_choice(icon: &str) -> (r: Option<usize>)
    ensures
        match r {
            Some(i) => choice_from(icon@, 0) == Some(i as int) && i < PROFILE_ICON_COUNT,
            None => choice_from(icon@, 0) is None,
        },
{
    let mut i: usize = 0;
    while i < PROFILE_ICON_COUNT
        invariant
            i <= PROFILE_ICON_COUNT,
            choice_from(icon@, 0) == choice_from(icon@, i as int),
        decreases PROFILE_ICON_COUNT - i,
    {
        if same(profile_icon_choice(i).0, icon) {
            return Some(i);
        }
        i = i + 1;
    }
    None
}

/// The icon that a profile has: the stored one where it is among the choices, else a person.
pub open spec fn settled_icon(icon: Option<Seq<char>>) -> Seq<char> {
    match trimmed_text(icon) {
        Some(name) => if choice_from(name, 0) is Some {
            name
        } else {
            "person-symbolic"@
        },
        None => "person-symbolic"@,
    }
}

pub fn normalize_profile_icon_name(icon_name: Option<&str>) -> (name: String)
    ensures
        name@ == settled_icon(str_option(icon_name)),
{
    match icon_name {
        Some(icon) => {
            let name = trim(icon);
            if !name.as_str().is_empty() && find_choice(name.as_str()).is_some() {
                name
            } else {
                owned("person-symbolic")
            }
        },
        None => owned("person-symbolic"),
    }
}

/// The icon of a profile is one of the choices, and is its own settled icon.
pub proof fn lemma_settled_icon(icon: Option<Seq<char>>)
    ensures
        choice_from(settled_icon(icon), 0) is Some,
        settled_icon(Some(settled_icon(icon))) == settled_icon(icon),
{
    let person = "person-symbolic"@;
    assert(choice_from(person, 0) == Some(0int));
    reveal_strlit("person-symbolic");
    assert(trimmed_start(person) == person);
    assert(trimmed_end(person) == person);
    match icon {
        Some(s) => {
            lemma_trimmed_idempotent(s);
        },
        None => {},
    }
}

pub open spec fn icon_title(icon: Seq<char>) -> Seq<char> {
    match choice_from(icon, 0) {
        Some(i) => icon_choice(i).1,
        None => "Profile Icon"@,
    }
}

/// What the icon of a profile is called.
pub fn profile_icon_label(icon_name: &str) -> (label: &'static str)
    ensures
        label@ == icon_title(icon_name@),
{
    match find_choice(icon_name) {
        Some(i) => profile_icon_choice(i).1,
        None => "Profile Icon",
    }
}

// ---------------------------------------------------------------------------------------------
// The list of profiles
// ---------------------------------------------------------------------------------------------
/// A profile as it is stored.
#[derive(Debug)]
pub struct ProfileRecord {
    pub id: i64,
    pub name: String,
    pub icon_name: String,
    pub status: String,
    pub backend_kind: String,
    pub home_dir: String,
    pub last_email: Option<String>,
    pub last_account_type: Option<String>,
}

impl ProfileRecord {
    /// What the account of the profile is called: its address, or else its type.
    pub open spec fn account(self) -> Option<Seq<char>> {
        match self.last_email {
            Some(email) => Some(email@),
            None => text_of_option(self.last_account_type),
        }
    }

    pub open spec fn runs(self, running_ids: Seq<i64>) -> bool {
        says_running(self.status@) || running_ids.contains(self.id)
    }

    pub open spec fn is_system(self, system_home: Seq<char>) -> bool {
        trimmed(self.home_dir@) == trimmed(system_home)
    }
}

fn account_of(profile: &ProfileRecord) -> (r: Option<&str>)
    ensures
        str_option(r) == profile.account(),
{
    match &profile.last_email {
        Some(email) => Some(email.as_str()),
        None => match &profile.last_account_type {
            Some(kind) => Some(kind.as_str()),
            None => None,
        },
    }
}

/// Whether a profile is the one of the system.
pub fn is_system_profile_record(profile: &ProfileRecord, system_home: &str) -> (r: bool)
    ensures
        r == profile.is_system(system_home@),
{
    let home = trim(profile.home_dir.as_str());
    let system = trim(system_home);
    same(home.as_str(), system.as_str())
}

/// Whether a profile, if it is there, is the one of the system.
pub fn is_system_home_profile(profile: Option<&ProfileRecord>, system_home: &str) -> (r: bool)
    ensures
        r == (profile matches Some(p) && p.is_system(system_home@)),
{
    match profile {
        Some(p) => is_system_profile_record(p, system_home),
        None => false,
    }
}

/// Whether a profile is in the list: it has the wanted backend, and is the one of the system where
/// only that is wanted.
pub open spec fn is_offered(
    p: ProfileRecord,
    backend_filter: Option<Seq<char>>,
    system_only: bool,
    system_home: Seq<char>,
) -> bool {
    (match backend_filter {
        Some(backend) => ascii_lower(p.backend_kind@) == ascii_lower(backend),
        None => true,
    }) && (!system_only || p.is_system(system_home))
}

/// The profiles of the list.
pub open spec fn offered(
    profiles: Seq<ProfileRecord>,
    backend_filter: Option<Seq<char>>,
    system_only: bool,
    system_home: Seq<char>,
) -> Seq<ProfileRecord>
    decreases profiles.len(),
{
    if profiles.len() == 0 {
        Seq::empty()
    } else {
        let before = offered(profiles.drop_last(), backend_filter, system_only, system_home);
        if is_offered(profiles.last(), backend_filter, system_only, system_home) {
            before.push(profiles.last())
        } else {
            before
        }
    }
}

/// The line of a profile: its name, whether it runs, and its account.
pub open spec fn profile_line(p: ProfileRecord, running_ids: Seq<i64>) -> Seq<char> {
    let state = if p.runs(running_ids) {
        "Running"@
    } else {
        "Stopped"@
    };
    match trimmed_text(p.account()) {
        Some(account) => p.name@ + " ("@ + (state + " | "@ + (account + ")"@)),
        None => p.name@ + " ("@ + (state + ")"@),
    }
}

/// The last profile of the list with an identifier; the first profile where none has it.
pub open spec fn chosen(ids: Seq<i64>, wanted: Option<i64>) -> int
    decreases ids.len(),
{
    if ids.len() == 0 {
        0
    } else if wanted == Some(ids.last()) {
        ids.len() - 1
    } else {
        chosen(ids.drop_last(), wanted)
    }
}

/// A list of profiles with one of them selected.
#[derive(Debug)]
pub struct ProfileDropdown {
    pub labels: Vec<String>,
    pub ids: Vec<i64>,
    pub selected: Option<usize>,
}

pub open spec fn record_ids(profiles: Seq<ProfileRecord>) -> Seq<i64> {
    Seq::new(profiles.len(), |i: int| profiles[i].id)
}

pub open spec fn record_lines(profiles: Seq<ProfileRecord>, running_ids: Seq<i64>) -> Seq<
    Seq<char>,
> {
    Seq::new(profiles.len(), |i: int| profile_line(profiles[i], running_ids))
}

fn runs_now(profile: &ProfileRecord, running_ids: &Vec<i64>) -> (r: bool)
    ensures
        r == profile.runs(running_ids@),
{
    if profile_is_running(Some(profile.status.as_str())) {
        return true;
    }
    let mut i: usize = 0;
    while i < running_ids.len()
        invariant
            i <= running_ids@.len(),
            forall|k: int| 0 <= k < i ==> running_ids@[k] != profile.id,
        decreases running_ids@.len() - i,
    {
        if running_ids[i] == profile.id {
            assert(running_ids@.contains(profile.id));
            return true;
        }
        i = i + 1;
    }
    false
}

fn line_of(profile: &ProfileRecord, running_ids: &Vec<i64>) -> (line: String)
    ensures
        line@ == profile_line(*profile, running_ids@),
{
    let state = if runs_now(profile, running_ids) {
        "Running"
    } else {
        "Stopped"
    };
    let account = match account_of(profile) {
        Some(text) => trim(text),
        None => owned(""),
    };
    proof {
        reveal_strlit("");
    }
    let rest = if account.as_str().is_empty() {
        concat(state, ")")
    } else {
        concat3(state, " | ", concat(account.as_str(), ")").as_str())
    };
    concat3(profile.name.as_str(), " (", rest.as_str())
}

/// The list of profiles that a settings page offers.
pub fn reload_profile_dropdown(
    profiles: &Vec<ProfileRecord>,
    running_ids: &Vec<i64>,
    selected_profile_id: Option<i64>,
    backend_filter: Option<&str>,
    system_only: bool,
    system_home: &str,
) -> (d: ProfileDropdown)
    ensures
        ({
            let list = offered(
                profiles@,
                str_option(backend_filter),
                system_only,
                system_home@,
            );
            &&& d.ids@ == record_ids(list)
            &&& d.labels.deep_view() == record_lines(list, running_ids@)
            &&& d.selected == (if list.len() == 0 {
                None
            } else {
                Some(chosen(record_ids(list), selected_profile_id) as usize)
            })
            &&& d.selected matches Some(k) ==> k < d.ids@.len()
        }),
{
    let ghost filter = str_option(backend_filter);
    let mut labels: Vec<String> = Vec::new();
    let mut ids: Vec<i64> = Vec::new();
    let mut chosen_index: usize = 0;
    let mut i: usize = 0;
    assert(profiles@.take(0) =~= Seq::empty());
    assert(labels.deep_view() =~= Seq::empty());
    while i < profiles.len()
        invariant
            i <= profiles@.len(),
            filter == str_option(backend_filter),
            ids@ =~= record_ids(
                offered(profiles@.take(i as int), filter, system_only, system_home@),
            ),
            labels.deep_view() =~= record_lines(
                offered(profiles@.take(i as int), filter, system_only, system_home@),
                running_ids@,
            ),
            chosen_index == chosen(ids@, selected_profile_id),
            ids@.len() == 0 || chosen_index < ids@.len(),
            ids@.len() <= i,
        decreases profiles@.len() - i,
    {
        let profile = &profiles[i];
        let ghost before = offered(profiles@.take(i as int), filter, system_only, system_home@);
        assert(profiles@.take(i + 1).drop_last() =~= profiles@.take(i as int));
        assert(profiles@.take(i + 1).last() == profiles@[i as int]);
        let backend_fits = match backend_filter {
            Some(backend) => equal_ignoring_case(profile.backend_kind.as_str(), backend),
            None => true,
        };
        if backend_fits && (!system_only || is_system_profile_record(profile, system_home)) {
            let ghost now = before.push(profiles@[i as int]);
            let ghost ids_before = ids@;
            let ghost labels_before = labels.deep_view();
            labels.push(line_of(profile, running_ids));
            assert(labels.deep_view() =~= labels_before.push(
                profile_line(profiles@[i as int], running_ids@),
            ));
            assert(record_lines(now, running_ids@) =~= record_lines(before, running_ids@).push(
                profile_line(profiles@[i as int], running_ids@),
            ));
            let wanted = match selected_profile_id {
                Some(id) => id == profile.id,
                None => false,
            };
            if wanted {
                chosen_index = ids.len();
            }
            ids.push(profile.id);
            assert(ids@.drop_last() =~= ids_before);
            assert(record_ids(now) =~= record_ids(before).push(profiles@[i as int].id));
        }
        i = i + 1;
    }
    assert(profiles@.take(i as int) =~= profiles@);
    let selected = if ids.len() == 0 {
        None
    } else {
        Some(chosen_index)
    };
    ProfileDropdown { labels, ids, selected }
}

/// The profile that is selected in a list.
pub fn selected_profile_id(selected: Option<usize>, profile_ids: &Vec<i64>) -> (r: Option<i64>)
    ensures
        r == (match selected {
            Some(k) => if k < profile_ids@.len() {
                Some(profile_ids@[k as int])
            } else {
                None
            },
            None => None,
        }),
{
    match selected {
        Some(k) => if k < profile_ids.len() {
            Some(profile_ids[k])
        } else {
            None
        },
        None => None,
    }
}

/// Where the wanted profile is in the list it is the one that is selected.
pub proof fn lemma_wanted_is_chosen(ids: Seq<i64>, wanted: i64)
    requires
        ids.contains(wanted),
    ensures
        0 <= chosen(ids, Some(wanted)) < ids.len(),
        ids[chosen(ids, Some(wanted))] == wanted,
    decreases ids.len(),
{
    if ids.last() != wanted {
        let k = ids.index_of(wanted);
        assert(ids.drop_last()[k] == wanted);
        lemma_wanted_is_chosen(ids.drop_last(), wanted);
    }
}

// ---------------------------------------------------------------------------------------------
// The controls of a page
// ---------------------------------------------------------------------------------------------
/// What a backend can do about accounts.
#[derive(Clone, Copy, Debug)]
pub struct AuthCapabilities {
    pub supports_logout: bool,
    pub supports_api_key_login: bool,
    pub supports_oauth_login: bool,
}

/// What the page of a profile shows and allows.
#[derive(Debug)]
pub struct ProfileControls {
    pub status: String,
    pub account: Option<String>,
    pub can_start: bool,
    pub can_stop: bool,
    pub can_remove: bool,
    pub shows_remove: bool,
    pub shows_runtime: bool,
    pub shows_auth: bool,
    pub shows_providers: bool,
    pub shows_system_note: bool,
    pub can_logout: bool,
    pub shows_logout: bool,
    pub can_set_api_key: bool,
    pub shows_api_key: bool,
    pub can_login: bool,
    pub login_label: String,
    pub api_key_label: String,
    pub logout_label: String,
}

/// What the page of a profile is made for.
#[derive(Debug)]
pub struct ProfilePage {
    pub running: bool,
    pub system: bool,
    /// How many profiles there are, where that can be read.
    pub profile_count: Option<usize>,
    /// Whether the page is for the runtime alone, without a profile to choose.
    pub runtime_only: bool,
    /// Whether no provider is known yet.
    pub no_providers: bool,
    pub capabilities: AuthCapabilities,
    pub backend_name: String,
}

pub open spec fn has_account(p: ProfileRecord) -> bool {
    trimmed_text(text_of_option(p.last_email)) is Some || trimmed_text(
        text_of_option(p.last_account_type),
    ) is Some
}

pub open spec fn account_or_none(p: ProfileRecord) -> Seq<char> {
    match p.account() {
        Some(text) => text,
        None => "not logged in"@,
    }
}

pub open spec fn run_state(running: bool) -> Seq<char> {
    if running {
        "running"@
    } else {
        "stopped"@
    }
}

/// What the page says of the account; nothing where what it says already stays.
pub open spec fn account_line(p: ProfileRecord, page: ProfilePage) -> Option<Seq<char>> {
    if page.runtime_only {
        if page.no_providers {
            Some("Providers with auth: loading..."@)
        } else {
            None
        }
    } else {
        Some(page.backend_name@ + " account: "@ + account_or_none(p))
    }
}

fn shows_text(text: &Option<String>) -> (r: bool)
    ensures
        r == (trimmed_text(text_of_option(*text)) is Some),
{
    match text {
        Some(s) => is_visible(s.as_str()),
        None => false,
    }
}

pub fn profile_has_account(profile: &ProfileRecord) -> (r: bool)
    ensures
        r == has_account(*profile),
{
    shows_text(&profile.last_email) || shows_text(&profile.last_account_type)
}

/// What the page of a profile shows and allows.
pub fn profile_controls(profile: &ProfileRecord, page: &ProfilePage) -> (c: ProfileControls)
    ensures
        c.status@ == (if page.runtime_only {
            "Runtime status: "@
        } else {
            "Profile status: "@
        }) + run_state(page.running),
        text_of_option(c.account) == account_line(*profile, *page),
        c.can_start == !page.running,
        c.can_stop == page.running,
        c.can_remove == (!page.runtime_only && !page.system && (page.profile_count matches Some(n)
            && n > 1)),
        c.shows_remove == (!page.runtime_only && !page.system),
        c.shows_runtime == (page.runtime_only || !page.system),
        c.shows_auth == (page.runtime_only || !page.system),
        c.shows_providers == page.runtime_only,
        c.shows_system_note == (!page.runtime_only && page.system),
        c.can_logout == (has_account(*profile) && page.capabilities.supports_logout),
        c.shows_logout == page.capabilities.supports_logout,
        c.can_set_api_key == page.capabilities.supports_api_key_login,
        c.shows_api_key == names_opencode(profile.backend_kind@),
        c.can_login == page.capabilities.supports_oauth_login,
        c.login_label@ == (if page.runtime_only {
            "OAuth Login"@
        } else if has_account(*profile) {
            "Reauthenticate"@
        } else {
            "Start Login"@
        }),
        c.api_key_label@ == (if page.runtime_only {
            "Set Provider API Key"@
        } else {
            "Set API Key"@
        }),
        c.logout_label@ == (if page.runtime_only {
            "Remove Provider"@
        } else {
            "Logout"@
        }),
{
    let known = profile_has_account(profile);
    let state = if page.running {
        "running"
    } else {
        "stopped"
    };
    let status = if page.runtime_only {
        concat("Runtime status: ", state)
    } else {
        concat("Profile status: ", state)
    };
    let account = if page.runtime_only {
        if page.no_providers {
            Some(owned("Providers with auth: loading..."))
        } else {
            None
        }
    } else {
        let text = match account_of(profile) {
            Some(text) => text,
            None => "not logged in",
        };
        Some(concat3(page.backend_name.as_str(), " account: ", text))
    };
    let several = match page.profile_count {
        Some(n) => n > 1,
        None => false,
    };
    let login_label = if page.runtime_only {
        owned("OAuth Login")
    } else if known {
        owned("Reauthenticate")
    } else {
        owned("Start Login")
    };
    let api_key_label = if page.runtime_only {
        owned("Set Provider API Key")
    } else {
        owned("Set API Key")
    };
    let logout_label = if page.runtime_only {
        owned("Remove Provider")
    } else {
        owned("Logout")
    };
    ProfileControls {
        status,
        account,
        can_start: !page.running,
        can_stop: page.running,
        can_remove: !page.runtime_only && !page.system && several,
        shows_remove: !page.runtime_only && !page.system,
        shows_runtime: page.runtime_only || !page.system,
        shows_auth: page.runtime_only || !page.system,
        shows_providers: page.runtime_only,
        shows_system_note: !page.runtime_only && page.system,
        can_logout: known && page.capabilities.supports_logout,
        shows_logout: page.capabilities.supports_logout,
        can_set_api_key: page.capabilities.supports_api_key_login,
        shows_api_key: crate::rollback::is_opencode_backend(profile.backend_kind.as_str()),
        can_login: page.capabilities.supports_oauth_login,
        login_label,
        api_key_label,
        logout_label,
    }
}

/// What the page of a Codex profile says of its account and its login.
pub fn codex_account_controls(profile: &ProfileRecord) -> (r: (String, &'static str, bool))
    ensures
        r.0@ == "Account: "@ + account_or_none(*profile),
        r.1@ == (if has_account(*profile) {
            "Reauthenticate"@
        } else {
            "Login ChatGPT"@
        }),
        r.2 == has_account(*profile),
{
    let text = match account_of(profile) {
        Some(text) => text,
        None => "not logged in",
    };
    let known = profile_has_account(profile);
    let label = if known {
        "Reauthenticate"
    } else {
        "Login ChatGPT"
    };
    (concat("Account: ", text), label, known)
}

/// The account of the system is not touched: nobody is signed in or out of the profile of the
/// system from here, except on the page of the runtime.
pub fn may_change_account(system: bool, runtime_only: bool) -> (r: bool)
    ensures
        r == (!system || runtime_only),
{
    !system || runtime_only
}

/// The name and the backend of a profile that is made: nothing where the name is blank, and Codex
/// where the page is for no backend in particular.
pub fn new_profile(entered_name: &str, backend_filter: Option<&str>) -> (r: Option<(String, String)>)
    ensures
        match r {
            Some(made) => {
                &&& trimmed(entered_name@).len() > 0
                &&& made.0@ == trimmed(entered_name@)
                &&& made.1@ == (match backend_filter {
                    Some(kind) => kind@,
                    None => "codex"@,
                })
            },
            None => trimmed(entered_name@).len() == 0,
        },
{
    let name = trim(entered_name);
    if name.as_str().is_empty() {
        return None;
    }
    let kind = match backend_filter {
        Some(kind) => kind,
        None => "codex",
    };
    Some((name, owned(kind)))
}

/// Whether the page of profiles offers to create one: it may, and is not that of a runtime.
pub fn shows_create(allow_create: bool, runtime_only: bool) -> (r: bool)
    ensures
        r == (allow_create && !runtime_only),
{
    allow_create && !runtime_only
}

/// The backend for which there has to be a profile before a page opens: the one that the page of a
/// runtime is about.
pub fn backend_to_ensure(runtime_only: bool, backend: Option<&str>) -> (r: Option<&str>)
    ensures
        r == (if runtime_only {
            backend
        } else {
            None
        }),
{
    if runtime_only {
        backend
    } else {
        None
    }
}

/// The question that is asked before a profile is removed.
pub fn remove_question(profile_name: Option<&str>) -> (text: String)
    ensures
        text@ == "Remove profile \""@ + (match profile_name {
            Some(name) => name@,
            None => "this profile"@,
        }) + "\"?\nIts runtime folder will be deleted, and its threads will be reassigned to another profile."@,
{
    let name = match profile_name {
        Some(name) => name,
        None => "this profile",
    };
    concat3(
        "Remove profile \"",
        name,
        "\"?\nIts runtime folder will be deleted, and its threads will be reassigned to another profile.",
    )
}

/// What is said once a profile was removed, or was not.
pub fn remove_result(result: &Result<(), String>) -> (text: String)
    ensures
        match *result {
            Ok(_) => text@ == "Profile removed."@,
            Err(err) => text@ == "Failed to remove profile: "@ + err@,
        },
{
    match result {
        Ok(_) => owned("Profile removed."),
        Err(err) => concat("Failed to remove profile: ", err.as_str()),
    }
}

// ---------------------------------------------------------------------------------------------
// Waiting for a login
// ---------------------------------------------------------------------------------------------
/// An account that a runtime is signed in to.
#[derive(Debug)]
pub struct AccountInfo {
    pub account_type: String,
    pub email: Option<String>,
}

/// How often a runtime is asked whether a login is complete.
pub const LOGIN_READS: usize = 90;

/// What waiting for a login does next.
#[derive(Debug)]
pub enum LoginWait {
    /// Ask for the account.
    Read,
    /// Sleep for a second, then ask for the account.
    SleepThenRead,
    /// The account with this index among the replies is the one.
    SignedIn(usize),
    /// Sleep for a second, then say that nobody signed in.
    SleepThenFail(String),
}

/// The first reply with an account.
pub open spec fn first_account(replies: Seq<Option<AccountInfo>>, from: int) -> Option<int>
    decreases replies.len() - from,
{
    if from < 0 || from >= replies.len() {
        None
    } else if replies[from] is Some {
        Some(from)
    } else {
        first_account(replies, from + 1)
    }
}

/// Waiting for a login: the account is asked for until there is one, with a second after each
/// question that found none. A reply is an account, or none, which is also what a failed question
/// counts as.
pub fn wait_for_login(replies: &Vec<Option<AccountInfo>>) -> (w: LoginWait)
    ensures
        match first_account(replies@, 0) {
            Some(i) => w matches LoginWait::SignedIn(k) && k == i && k < replies@.len()
                && replies@[i] is Some,
            None => if replies@.len() >= LOGIN_READS {
                w matches LoginWait::SleepThenFail(text) && text@
                    == "Timed out waiting for login completion. Try again."@
            } else if replies@.len() == 0 {
                w is Read
            } else {
                w is SleepThenRead
            },
        },
{
    let mut i: usize = 0;
    while i < replies.len()
        invariant
            i <= replies@.len(),
            first_account(replies@, 0) == first_account(replies@, i as int),
        decreases replies@.len() - i,
    {
        if replies[i].is_some() {
            return LoginWait::SignedIn(i);
        }
        i = i + 1;
    }
    if replies.len() >= LOGIN_READS {
        LoginWait::SleepThenFail(owned("Timed out waiting for login completion. Try again."))
    } else if replies.len() == 0 {
        LoginWait::Read
    } else {
        LoginWait::SleepThenRead
    }
}

/// What the settings store of an account: it goes to the profile, and is the current one where the
/// profile is active.
pub fn account_is_current(active_profile_id: Option<i64>, profile_id: i64) -> (r: bool)
    ensures
        r == (active_profile_id == Some(profile_id)),
{
    match active_profile_id {
        Some(id) => id == profile_id,
        None => false,
    }
}

} // verus!
