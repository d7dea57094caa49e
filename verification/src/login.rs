//! Signing in to the providers of a runtime: what is shown while a login is under way, and API
//! keys.
use crate::layout_store::is_visible;
use crate::profiles::AccountInfo;
use crate::text::{concat, concat3, ends_with, owned, same, strip_prefix, trim};
use vstd::prelude::*;
#[allow(unused_imports)]
use crate::layout_store::{text_of_option, trimmed_text};
#[allow(unused_imports)]
use crate::text::{ends_with_text, str_option, trimmed, without_prefix};

verus! {

// ---------------------------------------------------------------------------------------------
// Logins in the browser
// ---------------------------------------------------------------------------------------------
/// A login that the runtime has started.
#[derive(Debug)]
pub struct OAuthFlowInfo {
    pub provider_id: String,
    pub method_index: usize,
    pub url: String,
    pub method: String,
    pub instructions: Option<String>,
    pub device_code: Option<String>,
}

impl OAuthFlowInfo {
    /// Whether the login ends with a code that is pasted here.
    pub open spec fn wants_code(self) -> bool {
        self.method@ == "code"@
    }
}

/// What is shown for a login.
#[derive(Debug)]
pub struct OAuthPrompt {
    pub instructions: String,
    pub operation: String,
    /// Whether a code is asked for; else the login is waited for.
    pub asks_code: bool,
}

pub open spec fn flow_instructions(f: OAuthFlowInfo) -> Seq<char> {
    if f.device_code is Some {
        "Open the page above, enter the code below, and finish login in your browser."@
    } else if f.instructions is Some && trimmed(f.instructions->0@).len() > 0 {
        f.instructions->0@
    } else if f.wants_code() {
        "Open the link above, finish the provider login, then paste the returned authorization code below."@
    } else {
        "Open the link above and finish the provider login in your browser."@
    }
}

pub open spec fn flow_operation(f: OAuthFlowInfo, provider: Option<Seq<char>>) -> Seq<char> {
    match provider {
        Some(name) => if f.wants_code() {
            "Open the link above to connect "@ + name
                + ", then paste the authorization code below."@
        } else if f.device_code is Some {
            "Enter the code for "@ + name
                + " in your browser. OpenCode will finish login automatically."@
        } else {
            "Open the link above to connect "@ + name
                + ". Waiting for OpenCode to finish the OAuth callback..."@
        },
        None => if f.wants_code() {
            "Open the link above, then paste the authorization code below."@
        } else if f.device_code is Some {
            "Enter the code in your browser. OpenCode will finish login automatically."@
        } else {
            "Open the link above. Waiting for OpenCode to finish the OAuth callback..."@
        },
    }
}

pub fn oauth_prompt(flow: &OAuthFlowInfo, provider_name: Option<&str>) -> (p: OAuthPrompt)
    ensures
        p.instructions@ == flow_instructions(*flow),
        p.operation@ == flow_operation(*flow, str_option(provider_name)),
        p.asks_code == flow.wants_code(),
{
    let wants_code = same(flow.method.as_str(), "code");
    let device = flow.device_code.is_some();
    let own = match &flow.instructions {
        Some(text) => is_visible(text.as_str()),
        None => false,
    };
    let instructions = if device {
        owned("Open the page above, enter the code below, and finish login in your browser.")
    } else if own {
        match &flow.instructions {
            Some(text) => owned(text.as_str()),
            None => owned(""),
        }
    } else if wants_code {
        owned(
            "Open the link above, finish the provider login, then paste the returned authorization code below.",
        )
    } else {
        owned("Open the link above and finish the provider login in your browser.")
    };
    let operation = match provider_name {
        Some(name) => if wants_code {
            concat3(
                "Open the link above to connect ",
                name,
                ", then paste the authorization code below.",
            )
        } else if device {
            concat3(
                "Enter the code for ",
                name,
                " in your browser. OpenCode will finish login automatically.",
            )
        } else {
            concat3(
                "Open the link above to connect ",
                name,
                ". Waiting for OpenCode to finish the OAuth callback...",
            )
        },
        None => if wants_code {
            owned("Open the link above, then paste the authorization code below.")
        } else if device {
            owned("Enter the code in your browser. OpenCode will finish login automatically.")
        } else {
            owned("Open the link above. Waiting for OpenCode to finish the OAuth callback...")
        },
    };
    OAuthPrompt { instructions, operation, asks_code: wants_code }
}

/// What is said while the link of a login is fetched.
pub fn login_link_text(provider_name: Option<&str>) -> (text: String)
    ensures
        text@ == (match provider_name {
            Some(name) => "Generating login link for "@ + name@ + "..."@,
            None => "Generating login link..."@,
        }),
{
    match provider_name {
        Some(name) => concat3("Generating login link for ", name, "..."),
        None => owned("Generating login link..."),
    }
}

/// What is said once the link of a login that is polled for is there.
pub fn login_opened_text(provider_name: Option<&str>) -> (text: String)
    ensures
        text@ == (match provider_name {
            Some(name) => "Open the link above in your browser to connect "@ + name@
                + ", then return here."@,
            None => "Open the link above in your browser, complete login, then return here."@,
        }),
{
    match provider_name {
        Some(name) => concat3(
            "Open the link above in your browser to connect ",
            name,
            ", then return here.",
        ),
        None => owned("Open the link above in your browser, complete login, then return here."),
    }
}

/// The code that completes a login, or why there is none.
pub open spec fn entered_code(pending: bool, entered: Seq<char>) -> Result<Seq<char>, Seq<char>> {
    if !pending {
        Err("No OAuth flow is waiting for a callback code."@)
    } else if trimmed(entered).len() == 0 {
        Err("Paste the authorization code first."@)
    } else {
        Ok(trimmed(entered))
    }
}

pub fn oauth_code(pending: bool, entered: &str) -> (r: Result<String, &'static str>)
    ensures
        match r {
            Ok(code) => entered_code(pending, entered@) == Ok::<Seq<char>, Seq<char>>(code@),
            Err(text) => entered_code(pending, entered@) == Err::<Seq<char>, Seq<char>>(text@),
        },
{
    if !pending {
        return Err("No OAuth flow is waiting for a callback code.");
    }
    let code = trim(entered);
    if code.as_str().is_empty() {
        Err("Paste the authorization code first.")
    } else {
        Ok(code)
    }
}

// ---------------------------------------------------------------------------------------------
// Accounts
// ---------------------------------------------------------------------------------------------
/// What an account is called: its address, or else its type.
pub open spec fn account_title(a: AccountInfo) -> Seq<char> {
    match a.email {
        Some(email) => email@,
        None => a.account_type@,
    }
}

pub fn account_text(account: &AccountInfo) -> (text: String)
    ensures
        text@ == account_title(*account),
{
    match &account.email {
        Some(email) => owned(email.as_str()),
        None => owned(account.account_type.as_str()),
    }
}

/// What stands between the brackets of `OpenCode [...]`, without spaces around it; the whole text
/// where it has another form or nothing is there.
pub open spec fn connected_names(text: Seq<char>) -> Seq<char> {
    match without_prefix(text, "OpenCode ["@) {
        Some(rest) => if ends_with_text(rest, "]"@) && trimmed(
            rest.take(rest.len() - "]"@.len()),
        ).len() > 0 {
            trimmed(rest.take(rest.len() - "]"@.len()))
        } else {
            text
        },
        None => text,
    }
}

fn without_bracket(text: &str) -> (r: Option<String>)
    ensures
        match r {
            Some(s) => ends_with_text(text@, "]"@) && s@ == text@.take(text@.len() - "]"@.len()),
            None => !ends_with_text(text@, "]"@),
        },
{
    proof {
        reveal_strlit("]");
    }
    if !ends_with(text, "]") {
        return None;
    }
    let chars = crate::text::chars_of(text);
    assert(chars@.len() >= 1);
    let kept = chars.len() - 1;
    let r = crate::text::text_of_range(&chars, 0, kept);
    assert(r@ =~= text@.take(text@.len() - "]"@.len()));
    Some(r)
}

/// The providers that an account of OpenCode stands for.
pub fn connected_providers(account: &str) -> (r: String)
    ensures
        r@ == connected_names(account@),
{
    match strip_prefix(account, "OpenCode [") {
        Some(rest) => match without_bracket(rest.as_str()) {
            Some(inner) => {
                let names = trim(inner.as_str());
                if names.as_str().is_empty() {
                    owned(account)
                } else {
                    names
                }
            },
            None => owned(account),
        },
        None => owned(account),
    }
}

/// What a page says once somebody signed in: the state of the runtime, the account, and how the
/// login went.
#[derive(Debug)]
pub struct SignedIn {
    pub status: &'static str,
    pub account: String,
    pub operation: &'static str,
}

pub fn signed_in(account: &AccountInfo, runtime_only: bool) -> (s: SignedIn)
    ensures
        s.status@ == (if runtime_only {
            "Runtime status: running"@
        } else {
            "Profile status: running"@
        }),
        s.account@ == (if runtime_only {
            "Providers with auth: "@ + connected_names(account_title(*account))
        } else {
            "Account: "@ + account_title(*account)
        }),
        s.operation@ == "Login completed."@,
{
    let text = account_text(account);
    if runtime_only {
        SignedIn {
            status: "Runtime status: running",
            account: concat(
                "Providers with auth: ",
                connected_providers(text.as_str()).as_str(),
            ),
            operation: "Login completed.",
        }
    } else {
        SignedIn {
            status: "Profile status: running",
            account: concat("Account: ", text.as_str()),
            operation: "Login completed.",
        }
    }
}

/// How a login that the runtime completes ended.
#[derive(Debug)]
pub enum OAuthOutcome {
    SignedIn,
    /// It succeeded, but the runtime names no account.
    NoAccount,
    Failed(String),
    /// The request ended without an answer.
    Stopped,
    /// The runtime was not there to complete it.
    NotStarted,
}

/// What is said once a login ended.
pub fn oauth_outcome_text(outcome: &OAuthOutcome) -> (text: String)
    ensures
        text@ == (match *outcome {
            OAuthOutcome::SignedIn => "Login completed."@,
            OAuthOutcome::NoAccount => "Login completed but no account details were returned."@,
            OAuthOutcome::Failed(err) => "OAuth login failed: "@ + err@,
            OAuthOutcome::Stopped => "OAuth login stopped unexpectedly."@,
            OAuthOutcome::NotStarted => "Failed to keep OpenCode runtime active."@,
        }),
{
    match outcome {
        OAuthOutcome::SignedIn => owned("Login completed."),
        OAuthOutcome::NoAccount => owned("Login completed but no account details were returned."),
        OAuthOutcome::Failed(err) => concat("OAuth login failed: ", err.as_str()),
        OAuthOutcome::Stopped => owned("OAuth login stopped unexpectedly."),
        OAuthOutcome::NotStarted => owned("Failed to keep OpenCode runtime active."),
    }
}

/// The address that is opened in the browser: the text without spaces around it, where any is
/// left.
pub fn browser_uri(uri: &str) -> (r: Option<String>)
    ensures
        text_of_option(r) == trimmed_text(Some(uri@)),
{
    let text = trim(uri);
    if text.as_str().is_empty() {
        None
    } else {
        Some(text)
    }
}

// ---------------------------------------------------------------------------------------------
// API keys
// ---------------------------------------------------------------------------------------------
/// Why an API key cannot be asked for.
pub open spec fn api_key_obstacle(started: Result<Seq<char>, Seq<char>>) -> Option<Seq<char>> {
    match started {
        Err(err) => Some("Unable to start the selected runtime: "@ + err),
        Ok(kind) => if kind == "opencode"@ {
            None
        } else {
            Some("API-key login is currently only exposed for OpenCode profiles."@)
        },
    }
}

/// Why an API key cannot be asked for, given the kind of the runtime that was started.
pub fn api_key_flow_obstacle(started: &Result<String, String>) -> (r: Option<String>)
    ensures
        text_of_option(r) == api_key_obstacle(crate::git_flow::reply_model(*started)),
{
    match started {
        Err(err) => Some(concat("Unable to start the selected runtime: ", err.as_str())),
        Ok(kind) => if same(kind.as_str(), "opencode") {
            None
        } else {
            Some(owned("API-key login is currently only exposed for OpenCode profiles."))
        },
    }
}

/// What came of asking a runtime for the providers that take a key.
#[derive(Debug)]
pub enum ProviderListReply {
    /// This many providers were named.
    Listed(usize),
    Failed(String),
    /// The request ended without an answer.
    Stopped,
}

/// Why no provider can be chosen.
pub open spec fn provider_list_problem(reply: ProviderListReply) -> Option<Seq<char>> {
    match reply {
        ProviderListReply::Listed(count) => if count == 0 {
            Some("No API-key capable OpenCode providers were reported by the runtime."@)
        } else {
            None
        },
        ProviderListReply::Failed(err) => Some("Unable to load provider list: "@ + err@),
        ProviderListReply::Stopped => Some("Provider list request stopped unexpectedly."@),
    }
}

pub fn provider_list_obstacle(reply: &ProviderListReply) -> (r: Option<String>)
    ensures
        text_of_option(r) == provider_list_problem(*reply),
{
    match reply {
        ProviderListReply::Listed(count) => if *count == 0 {
            Some(owned("No API-key capable OpenCode providers were reported by the runtime."))
        } else {
            None
        },
        ProviderListReply::Failed(err) => Some(
            concat("Unable to load provider list: ", err.as_str()),
        ),
        ProviderListReply::Stopped => Some(owned("Provider list request stopped unexpectedly.")),
    }
}

/// The key that is saved, or what is missing.
pub open spec fn api_key_entry(
    provider_count: int,
    selected: int,
    entered: Seq<char>,
) -> Result<Seq<char>, Seq<char>> {
    if selected >= provider_count {
        Err("Select a provider."@)
    } else if trimmed(entered).len() == 0 {
        Err("API key is required."@)
    } else {
        Ok(trimmed(entered))
    }
}

pub fn entered_api_key(provider_count: usize, selected: usize, entered: &str) -> (r: Result<
    String,
    &'static str,
>)
    ensures
        match r {
            Ok(key) => api_key_entry(provider_count as int, selected as int, entered@) == Ok::<
                Seq<char>,
                Seq<char>,
            >(key@),
            Err(text) => api_key_entry(provider_count as int, selected as int, entered@) == Err::<
                Seq<char>,
                Seq<char>,
            >(text@),
        },
{
    if selected >= provider_count {
        return Err("Select a provider.");
    }
    let key = trim(entered);
    if key.as_str().is_empty() {
        Err("API key is required.")
    } else {
        Ok(key)
    }
}

/// How saving an API key went.
#[derive(Debug)]
pub enum SaveOutcome {
    /// The key is saved and the account stored.
    Stored,
    /// The key is saved, the account could not be stored.
    NotStored(String),
    /// The key could not be saved.
    NotSaved(String),
    /// No runtime could be started to save it.
    NotStarted(String),
    /// The request ended without an answer.
    Stopped,
}

/// What is said once an API key was saved, and whether the prompt closes.
pub fn api_key_saved(outcome: &SaveOutcome, provider_name: &str) -> (r: (String, bool))
    ensures
        match *outcome {
            SaveOutcome::Stored => r.0@ == "Saved API key for "@ + provider_name@ + "."@ && r.1,
            SaveOutcome::NotStored(err) => r.0@ == "Failed to store account info: "@ + err@
                && !r.1,
            SaveOutcome::NotSaved(err) => r.0@ == "Failed to save API key: "@ + err@ && !r.1,
            SaveOutcome::NotStarted(err) => r.0@ == "Unable to start the selected runtime: "@
                + err@ && !r.1,
            SaveOutcome::Stopped => r.0@ == "API-key login request stopped unexpectedly."@ && !r.1,
        },
{
    match outcome {
        SaveOutcome::Stored => (concat3("Saved API key for ", provider_name, "."), true),
        SaveOutcome::NotStored(err) => (
            concat("Failed to store account info: ", err.as_str()),
            false,
        ),
        SaveOutcome::NotSaved(err) => (concat("Failed to save API key: ", err.as_str()), false),
        SaveOutcome::NotStarted(err) => (
            concat("Unable to start the selected runtime: ", err.as_str()),
            false,
        ),
        SaveOutcome::Stopped => (owned("API-key login request stopped unexpectedly."), false),
    }
}

} // verus!
