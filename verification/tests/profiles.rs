use enzim_ui::json::{parse, render};
use enzim_ui::login::{
    account_text, api_key_flow_obstacle, api_key_saved, browser_uri, connected_providers, entered_api_key,
    login_link_text, login_opened_text, oauth_code, oauth_outcome_text, oauth_prompt, provider_list_obstacle, signed_in,
    OAuthFlowInfo, OAuthOutcome, ProviderListReply, SaveOutcome,
};
use enzim_ui::profiles::{
    account_is_current, backend_to_ensure, codex_account_controls, is_system_home_profile,
    is_system_profile_record, may_change_account, new_profile, normalize_profile_icon_name,
    profile_controls, profile_has_account, profile_icon_choice, profile_icon_label,
    reload_profile_dropdown, remove_question, remove_result, selected_profile_id, shows_create,
    wait_for_login, AccountInfo, AuthCapabilities, LoginWait, ProfilePage, ProfileRecord,
    LOGIN_READS, PROFILE_ICON_COUNT,
};
use enzim_ui::providers::{
    apply_provider_filter, find_provider, grouped_models, kept_provider, logged_out_text,
    logout_step, matches_filter, model_is_visible, model_switched_text, models_status_text,
    opencode_provider_dropdown_label, provider_actions, provider_selector_label,
    providers_with_auth_text, requested_provider, AccountProviderInfo, LogoutStep, ModelInfo, ProviderRequest,
};
use enzim_ui::skills_mcp::{
    build_entries, has_details, kind_label, mcp_config_write, normalize_mcp_server_name,
    oauth_result, offers_auth, popup_profile_name, popup_status_text, profile_is_running,
    toggle_result, toggled_item, CatalogItem, EntryKind, McpServerInfo,
};

fn text(s: &str) -> Option<String> {
    Some(s.to_string())
}

fn profile(id: i64, name: &str) -> ProfileRecord {
    ProfileRecord {
        id,
        name: name.to_string(),
        icon_name: String::new(),
        status: "stopped".to_string(),
        backend_kind: "codex".to_string(),
        home_dir: format!("/home/{id}"),
        last_email: None,
        last_account_type: None,
    }
}

#[test]
fn icons_come_from_the_choices() {
    assert_eq!(PROFILE_ICON_COUNT, 15);
    assert_eq!(profile_icon_choice(0), ("person-symbolic", "Person"));
    assert_eq!(profile_icon_choice(14), ("car-side-symbolic", "Car"));
    assert_eq!(normalize_profile_icon_name(Some(" star-symbolic ")), "star-symbolic");
    assert_eq!(normalize_profile_icon_name(Some("nope")), "person-symbolic");
    assert_eq!(normalize_profile_icon_name(None), "person-symbolic");
    assert_eq!(profile_icon_label("rocket-symbolic"), "Rocket");
    assert_eq!(profile_icon_label("nope"), "Profile Icon");
    for i in 0..PROFILE_ICON_COUNT {
        let (icon, label) = profile_icon_choice(i);
        assert_eq!(normalize_profile_icon_name(Some(icon)), icon);
        assert_eq!(profile_icon_label(icon), label);
    }
}

#[test]
fn profiles_are_listed() {
    let mut mail = profile(2, "Work");
    mail.last_email = text(" me@x ");
    mail.status = "RUNNING".to_string();
    let mut blank = profile(3, "Blank");
    blank.last_email = text("  ");
    blank.last_account_type = text("api");
    blank.backend_kind = "OpenCode".to_string();
    let all = vec![profile(1, "Home"), mail, blank];
    let d = reload_profile_dropdown(&all, &vec![1], Some(2), None, false, "/sys");
    assert_eq!(d.ids, vec![1, 2, 3]);
    assert_eq!(d.labels, vec!["Home (Running)", "Work (Running | me@x)", "Blank (Stopped)"]);
    assert_eq!(d.selected, Some(1));
    assert_eq!(selected_profile_id(d.selected, &d.ids), Some(2));
    let d = reload_profile_dropdown(&all, &vec![], Some(9), Some("opencode"), false, "/sys");
    assert_eq!(d.ids, vec![3]);
    assert_eq!(d.selected, Some(0));
    let d = reload_profile_dropdown(&all, &vec![], None, None, true, "/home/1 ");
    assert_eq!(d.ids, vec![1]);
    let d = reload_profile_dropdown(&all, &vec![], None, None, true, "/sys");
    assert_eq!(d.selected, None);
    assert_eq!(selected_profile_id(None, &d.ids), None);
    assert_eq!(selected_profile_id(Some(4), &d.ids), None);
    assert!(is_system_profile_record(&all[0], " /home/1"));
    assert!(!is_system_home_profile(None, "/home/1"));
    assert!(is_system_home_profile(Some(&all[0]), "/home/1"));
}

fn page(runtime_only: bool, system: bool) -> ProfilePage {
    ProfilePage {
        running: true,
        system,
        profile_count: Some(2),
        runtime_only,
        no_providers: true,
        capabilities: AuthCapabilities {
            supports_logout: true,
            supports_api_key_login: false,
            supports_oauth_login: true,
        },
        backend_name: "Codex".to_string(),
    }
}

#[test]
fn pages_follow_the_profile() {
    let mut p = profile(1, "Home");
    let c = profile_controls(&p, &page(false, false));
    assert_eq!(c.status, "Profile status: running");
    assert_eq!(c.account, text("Codex account: not logged in"));
    assert!(!c.can_start && c.can_stop && c.can_remove && c.shows_remove);
    assert!(!c.can_logout && c.shows_logout && !c.can_set_api_key && c.can_login);
    assert_eq!(c.login_label, "Start Login");
    p.last_account_type = text("chatgpt");
    let c = profile_controls(&p, &page(false, true));
    assert!(c.can_logout && !c.can_remove && !c.shows_auth && c.shows_system_note);
    assert_eq!(c.login_label, "Reauthenticate");
    let c = profile_controls(&p, &page(true, true));
    assert_eq!(c.status, "Runtime status: running");
    assert_eq!(c.account, text("Providers with auth: loading..."));
    assert!(c.shows_auth && c.shows_providers && !c.shows_system_note && !c.can_remove);
    assert_eq!(c.api_key_label, "Set Provider API Key");
    assert_eq!(c.logout_label, "Remove Provider");
    assert!(profile_has_account(&p));
    let (line, label, known) = codex_account_controls(&p);
    assert_eq!((line.as_str(), label, known), ("Account: chatgpt", "Reauthenticate", true));
    assert!(may_change_account(true, true));
    assert!(!may_change_account(true, false));
}

#[test]
fn removing_a_profile_is_confirmed() {
    assert!(remove_question(Some("Work")).starts_with("Remove profile \"Work\"?\n"));
    assert!(remove_question(None).contains("this profile"));
    assert_eq!(remove_result(&Ok(())), "Profile removed.");
    assert_eq!(remove_result(&Err("x".to_string())), "Failed to remove profile: x");
}

fn account(kind: &str, email: Option<&str>) -> AccountInfo {
    AccountInfo { account_type: kind.to_string(), email: email.map(|e| e.to_string()) }
}

#[test]
fn a_login_is_waited_for() {
    assert!(matches!(wait_for_login(&vec![]), LoginWait::Read));
    assert!(matches!(wait_for_login(&vec![None]), LoginWait::SleepThenRead));
    assert!(matches!(
        wait_for_login(&vec![None, Some(account("a", None))]),
        LoginWait::SignedIn(1)
    ));
    let most: Vec<Option<AccountInfo>> = (1..LOGIN_READS).map(|_| None).collect();
    assert!(matches!(wait_for_login(&most), LoginWait::SleepThenRead));
    let none: Vec<Option<AccountInfo>> = (0..LOGIN_READS).map(|_| None).collect();
    match wait_for_login(&none) {
        LoginWait::SleepThenFail(text) => {
            assert_eq!(text, "Timed out waiting for login completion. Try again.")
        }
        other => panic!("{other:?}"),
    }
    assert!(account_is_current(Some(3), 3));
    assert!(!account_is_current(None, 3));
}

fn provider(id: &str, name: &str, connected: bool, saved: bool) -> AccountProviderInfo {
    AccountProviderInfo {
        provider_id: id.to_string(),
        provider_name: name.to_string(),
        connected,
        has_saved_auth: saved,
        supports_oauth: false,
        supports_api_key: true,
    }
}

fn providers() -> Vec<AccountProviderInfo> {
    vec![
        provider("openai", "OpenAI", true, false),
        provider("anthropic", "Anthropic", false, true),
        provider("groq", "Groq", false, false),
    ]
}

#[test]
fn providers_are_filtered() {
    let all = providers();
    let r = apply_provider_filter(&all, " AN ", Some("openai"), &text("x"));
    assert_eq!(r.listed, vec![1]);
    assert_eq!(r.selected, text("anthropic"));
    assert!(!r.says_no_match);
    let r = apply_provider_filter(&all, "", Some("groq"), &None);
    assert_eq!(r.listed, vec![0, 1, 2]);
    assert_eq!(r.selected, text("groq"));
    let r = apply_provider_filter(&all, "zzz", Some("groq"), &text("groq"));
    assert!(r.listed.is_empty());
    assert_eq!(r.selected, text("groq"));
    assert!(r.says_no_match);
    let r = apply_provider_filter(&vec![], "", None, &text("groq"));
    assert_eq!(r.selected, None);
    assert!(matches_filter("", "a", "b"));
    assert!(matches_filter("b", "a", "b"));
    assert!(!matches_filter("c", "a", "b"));
    assert_eq!(apply_provider_filter(&all, "GRÖQ", None, &None).listed.len(), 0);
}

#[test]
fn providers_have_lines() {
    let all = providers();
    assert_eq!(opencode_provider_dropdown_label(&all[0]), "OpenAI (Added)");
    assert_eq!(opencode_provider_dropdown_label(&all[2]), "Groq");
    assert_eq!(provider_selector_label(&all, &text("anthropic")), "Anthropic (Added)");
    assert_eq!(provider_selector_label(&all, &text("x")), "(None)");
    assert_eq!(find_provider(&all, "groq"), Some(2));
    assert_eq!(kept_provider(&all, &text("groq")), text("groq"));
    assert_eq!(kept_provider(&all, &text("x")), text("openai"));
    assert_eq!(kept_provider(&vec![], &text("x")), None);
    assert_eq!(providers_with_auth_text(&all), "Providers with auth: OpenAI, Anthropic");
    assert_eq!(providers_with_auth_text(&vec![]), "Providers with auth: none");
}

#[test]
fn providers_allow_what_they_support() {
    let all = providers();
    let a = provider_actions(&all, &text("anthropic"));
    assert_eq!(a.hint, "API key saved. Ready to use. No extra connect step is required.");
    assert!(!a.can_login && a.can_set_api_key && a.can_remove);
    assert_eq!(a.provider, Some(1));
    assert_eq!(provider_actions(&all, &text("openai")).hint, "Connected and ready to use.");
    assert_eq!(
        provider_actions(&all, &text("groq")).hint,
        "Not configured yet. Use Set Provider API Key."
    );
    assert_eq!(provider_actions(&all, &None).hint, "Select a provider.");
    assert_eq!(
        provider_actions(&vec![], &text("x")).hint,
        "No providers reported by OpenCode yet."
    );
    assert_eq!(
        requested_provider(&all, &text("groq"), ProviderRequest::Login),
        Err("The selected provider does not support OAuth login.")
    );
    assert_eq!(requested_provider(&all, &text("groq"), ProviderRequest::SetApiKey), Ok(2));
    assert_eq!(
        requested_provider(&all, &text("groq"), ProviderRequest::Remove),
        Err("Selected provider has no saved auth to remove.")
    );
    assert_eq!(
        requested_provider(&all, &text("x"), ProviderRequest::Remove),
        Err("Selected OpenCode provider is unavailable.")
    );
    assert_eq!(
        requested_provider(&all, &None, ProviderRequest::Remove),
        Err("Select an OpenCode provider first.")
    );
    let mut closed = providers();
    closed[2].supports_api_key = false;
    assert_eq!(
        requested_provider(&closed, &text("groq"), ProviderRequest::SetApiKey),
        Err("The selected provider does not support API-key login.")
    );
}

fn model(id: &str, name: &str) -> ModelInfo {
    ModelInfo { id: id.to_string(), display_name: name.to_string() }
}

#[test]
fn models_are_grouped_by_provider() {
    let models = vec![
        model("openai:b", "OpenAI / Beta"),
        model("openai:a", "OpenAI / Alpha"),
        model("openai:a", "OpenAI / Alpha"),
        model("plain", "ANTHROPIC / Opal"),
        model("groq:x", "Groq / X"),
        model("lost", "Nobody / Y"),
        model("none", "Z"),
    ];
    let groups = grouped_models(&providers(), &models);
    assert_eq!(groups.len(), 2);
    assert_eq!(groups[0].provider, "Anthropic");
    assert_eq!(groups[0].models.len(), 1);
    assert_eq!(groups[0].models[0].title, "Opal");
    assert_eq!(groups[1].provider, "OpenAI");
    let titles: Vec<_> = groups[1].models.iter().map(|m| m.title.as_str()).collect();
    assert_eq!(titles, vec!["Alpha", "Beta"]);
    assert_eq!(
        models_status_text(2, &groups),
        "2 visible / 3 total across 2 providers with auth."
    );
    assert_eq!(models_status_text(0, &vec![]), "No providers with auth are connected.");
    assert_eq!(
        models_status_text(0, &grouped_models(&providers(), &vec![])),
        "No models reported for providers with auth."
    );
    assert!(!model_is_visible(&groups[0].models[0], &vec!["plain".to_string()]));
    assert_eq!(model_switched_text(true), "Hidden from composer.");
}

fn flow(method: &str, device: Option<&str>, instructions: Option<&str>) -> OAuthFlowInfo {
    OAuthFlowInfo {
        provider_id: "p".to_string(),
        method_index: 0,
        url: "u".to_string(),
        method: method.to_string(),
        instructions: instructions.map(|s| s.to_string()),
        device_code: device.map(|s| s.to_string()),
    }
}

#[test]
fn logins_have_prompts() {
    let p = oauth_prompt(&flow("code", None, Some(" ")), Some("Groq"));
    assert!(p.asks_code);
    assert_eq!(
        p.operation,
        "Open the link above to connect Groq, then paste the authorization code below."
    );
    assert!(p.instructions.starts_with("Open the link above, finish the provider login"));
    let p = oauth_prompt(&flow("auto", Some("AB"), Some("own")), None);
    assert!(!p.asks_code);
    assert!(p.instructions.starts_with("Open the page above"));
    let p = oauth_prompt(&flow("auto", None, Some("own")), None);
    assert_eq!(p.instructions, "own");
    assert_eq!(login_link_text(Some("X")), "Generating login link for X...");
    assert_eq!(login_link_text(None), "Generating login link...");
    assert!(login_opened_text(Some("X")).contains("to connect X"));
    assert_eq!(oauth_code(true, " c "), Ok("c".to_string()));
    assert_eq!(oauth_code(true, " "), Err("Paste the authorization code first."));
    assert_eq!(oauth_code(false, "c"), Err("No OAuth flow is waiting for a callback code."));
}

#[test]
fn accounts_have_titles() {
    assert_eq!(account_text(&account("k", Some("e"))), "e");
    assert_eq!(account_text(&account("k", None)), "k");
    assert_eq!(connected_providers("OpenCode [ A, B ]"), "A, B");
    assert_eq!(connected_providers("OpenCode []"), "OpenCode []");
    assert_eq!(connected_providers("other"), "other");
    let s = signed_in(&account("OpenCode [A]", None), true);
    assert_eq!(s.account, "Providers with auth: A");
    assert_eq!(s.status, "Runtime status: running");
    assert_eq!(signed_in(&account("k", None), false).account, "Account: k");
}

#[test]
fn api_keys_are_entered() {
    assert_eq!(api_key_flow_obstacle(&Ok("opencode".to_string())), None);
    assert_eq!(
        api_key_flow_obstacle(&Ok("codex".to_string())),
        text("API-key login is currently only exposed for OpenCode profiles.")
    );
    assert_eq!(
        api_key_flow_obstacle(&Err("e".to_string())),
        text("Unable to start the selected runtime: e")
    );
    assert_eq!(entered_api_key(2, 1, " k "), Ok("k".to_string()));
    assert_eq!(entered_api_key(2, 2, "k"), Err("Select a provider."));
    assert_eq!(entered_api_key(2, 0, " "), Err("API key is required."));
    assert_eq!(
        api_key_saved(&SaveOutcome::Stored, "X"),
        ("Saved API key for X.".to_string(), true)
    );
    assert_eq!(
        api_key_saved(&SaveOutcome::NotStored("e".to_string()), "X"),
        ("Failed to store account info: e".to_string(), false)
    );
    assert_eq!(
        api_key_saved(&SaveOutcome::NotSaved("e".to_string()), "X"),
        ("Failed to save API key: e".to_string(), false)
    );
    assert_eq!(
        api_key_saved(&SaveOutcome::NotStarted("e".to_string()), "X"),
        ("Unable to start the selected runtime: e".to_string(), false)
    );
    assert_eq!(
        api_key_saved(&SaveOutcome::Stopped, "X"),
        ("API-key login request stopped unexpectedly.".to_string(), false)
    );
}

#[test]
fn a_provider_list_may_be_missing() {
    assert_eq!(provider_list_obstacle(&ProviderListReply::Listed(2)), None);
    assert_eq!(
        provider_list_obstacle(&ProviderListReply::Listed(0)),
        text("No API-key capable OpenCode providers were reported by the runtime.")
    );
    assert_eq!(
        provider_list_obstacle(&ProviderListReply::Failed("e".to_string())),
        text("Unable to load provider list: e")
    );
    assert_eq!(
        provider_list_obstacle(&ProviderListReply::Stopped),
        text("Provider list request stopped unexpectedly.")
    );
}

#[test]
fn server_names_are_plain() {
    assert_eq!(normalize_mcp_server_name("  My Server v1.2! "), "my_server_v1_2");
    assert_eq!(normalize_mcp_server_name("a . b"), "a_b");
    assert_eq!(normalize_mcp_server_name("__x__"), "x");
    assert_eq!(normalize_mcp_server_name("é!"), "mcp_server");
    assert_eq!(normalize_mcp_server_name("a__b"), "a__b");
    assert_eq!(
        normalize_mcp_server_name(&normalize_mcp_server_name("A. B")),
        normalize_mcp_server_name("A. B")
    );
}

fn catalog(key: &str, name: &str) -> CatalogItem {
    CatalogItem { key: key.to_string(), name: name.to_string(), description: String::new() }
}

#[test]
fn entries_are_in_order() {
    let status = vec![McpServerInfo {
        name: "Web Search".to_string(),
        auth_label: "Signed out".to_string(),
        authenticated: false,
    }];
    let entries = build_entries(
        &vec![catalog("s2", "beta"), catalog("s1", "Alpha")],
        &vec![catalog("m1", "web search"), catalog("m2", "Files")],
        &vec!["s1".to_string()],
        &vec!["m1".to_string()],
        &status,
    );
    let names: Vec<_> = entries.iter().map(|e| e.name.as_str()).collect();
    assert_eq!(names, vec!["Alpha", "beta", "Files", "web search"]);
    assert!(entries[0].assigned);
    assert_eq!(entries[0].auth_label, None);
    assert_eq!(entries[2].auth_label, text("Unknown"));
    assert_eq!(entries[3].auth_label, text("Signed out"));
    assert!(offers_auth(&entries[3]));
    assert!(!offers_auth(&entries[2]));
    assert!(!has_details(&entries[0]));
    assert_eq!(kind_label(EntryKind::Mcp), "MCP");
}

#[test]
fn the_popup_names_its_profile() {
    assert_eq!(popup_profile_name(3, None), "Profile #3");
    assert_eq!(popup_profile_name(3, Some("x")), "x");
    assert!(profile_is_running(Some("Running")));
    assert!(!profile_is_running(None));
    assert_eq!(
        popup_status_text(false, Some("e")),
        "Profile is stopped. Open Settings to assign when profile is running."
    );
    assert_eq!(popup_status_text(true, Some("e")), "mcpServerStatus/list failed: e");
    assert_eq!(popup_status_text(true, None), "");
}

#[test]
fn switching_an_entry() {
    let keys = vec!["a".to_string(), "b".to_string()];
    let skill = EntryKind::Skill;
    assert_eq!(toggled_item(skill, "b", 1, &Ok(true), &keys, true), Ok(1));
    assert_eq!(
        toggled_item(skill, "z", 1, &Ok(true), &keys, true),
        Err("skill not found in catalog: z".to_string())
    );
    assert_eq!(
        toggled_item(EntryKind::Mcp, "z", 1, &Ok(true), &keys, true),
        Err("mcp not found in catalog: z".to_string())
    );
    assert_eq!(
        toggled_item(skill, "b", 1, &Ok(true), &keys, false),
        Err("Profile app-server is not running.".to_string())
    );
    assert_eq!(
        toggled_item(skill, "b", 1, &Ok(false), &keys, true),
        Err("profile 1 not found".to_string())
    );
    assert_eq!(
        toggled_item(skill, "b", 1, &Err("db".to_string()), &keys, true),
        Err("db".to_string())
    );
    let on = mcp_config_write("Web Search", parse(r#"{"a":1}"#).unwrap(), true);
    assert_eq!(on.key_path, "mcp_servers.web_search");
    assert_eq!(render(&on.value), r#"{"a":1}"#);
    assert_eq!(on.merge, "upsert");
    let off = mcp_config_write("Web Search", parse(r#"{"a":1}"#).unwrap(), false);
    assert_eq!(render(&off.value), "null");
    assert_eq!(off.merge, "replace");
    assert_eq!(toggle_result(&Ok(()), true), ("Assignment updated.".to_string(), true));
    assert_eq!(
        toggle_result(&Err("e".to_string()), true),
        ("Toggle failed: e".to_string(), false)
    );
    assert_eq!(oauth_result(&Err("e".to_string())), "MCP OAuth failed: e");
}

#[test]
fn signing_out_is_decided() {
    let all = providers();
    assert!(matches!(
        logout_step(false, true, &all, &text("openai")),
        LogoutStep::Unsupported("Logout is not supported for this runtime profile.")
    ));
    assert!(matches!(logout_step(true, false, &all, &None), LogoutStep::LogOut));
    assert!(matches!(
        logout_step(true, true, &all, &None),
        LogoutStep::Refused("Select an OpenCode provider first.")
    ));
    assert!(matches!(
        logout_step(true, true, &all, &text("anthropic")),
        LogoutStep::RemoveProvider(1)
    ));
    assert!(matches!(
        logout_step(true, true, &all, &text("groq")),
        LogoutStep::Refused("Selected provider has no saved auth to remove.")
    ));
    assert_eq!(logged_out_text(Some("Groq")), "Removed Groq from OpenCode.");
    assert_eq!(logged_out_text(None), "Logged out from this profile.");
}

#[test]
fn logins_end() {
    assert_eq!(oauth_outcome_text(&OAuthOutcome::SignedIn), "Login completed.");
    assert_eq!(
        oauth_outcome_text(&OAuthOutcome::NoAccount),
        "Login completed but no account details were returned."
    );
    assert_eq!(
        oauth_outcome_text(&OAuthOutcome::Failed("e".to_string())),
        "OAuth login failed: e"
    );
    assert_eq!(oauth_outcome_text(&OAuthOutcome::Stopped), "OAuth login stopped unexpectedly.");
    assert_eq!(
        oauth_outcome_text(&OAuthOutcome::NotStarted),
        "Failed to keep OpenCode runtime active."
    );
    assert_eq!(browser_uri(" https://x "), text("https://x"));
    assert_eq!(browser_uri("  "), None);
}

#[test]
fn profiles_are_made() {
    let made = Some(("Work".to_string(), "codex".to_string()));
    assert_eq!(new_profile(" Work ", None), made);
    assert_eq!(new_profile("W", Some("opencode")).unwrap().1, "opencode");
    assert_eq!(new_profile("  ", Some("opencode")), None);
}

#[test]
fn pages_of_runtimes_ensure_their_profile() {
    assert!(shows_create(true, false));
    assert!(!shows_create(true, true));
    assert!(!shows_create(false, false));
    assert_eq!(backend_to_ensure(true, Some("opencode")), Some("opencode"));
    assert_eq!(backend_to_ensure(true, None), None);
    assert_eq!(backend_to_ensure(false, Some("codex")), None);
}
