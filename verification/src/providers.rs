//! The account providers of an OpenCode runtime, and the models they offer.
use crate::lines::{join, lists, unicode_lowercase};
use crate::number::{decimal_u128, decimal_usize};
use crate::order::{stable_sort, Sortable};
use crate::text::{concat, concat3, contains, not_after, owned, same, split_once, trim};
use vstd::prelude::*;
#[allow(unused_imports)]
use crate::layout_store::text_of_option;
#[allow(unused_imports)]
use crate::lines::{joined, unicode_lower};
#[allow(unused_imports)]
use crate::number::decimal;
#[allow(unused_imports)]
use crate::order::{lemma_values_sorted, sorted_by, stable_sorted, values};
#[allow(unused_imports)]
use crate::text::{
    contains_text, lemma_text_le_total, lemma_text_le_transitive, split_once_at, str_option,
    text_le, trimmed,
};

verus! {

/// A provider of models that accounts can be kept with.
#[derive(Debug)]
pub struct AccountProviderInfo {
    pub provider_id: String,
    pub provider_name: String,
    pub connected: bool,
    pub has_saved_auth: bool,
    pub supports_oauth: bool,
    pub supports_api_key: bool,
}

impl AccountProviderInfo {
    /// Whether there are credentials for the provider.
    pub open spec fn has_auth(self) -> bool {
        self.connected || self.has_saved_auth
    }
}

// ---------------------------------------------------------------------------------------------
// The list of providers
// ---------------------------------------------------------------------------------------------
pub open spec fn provider_line(p: AccountProviderInfo) -> Seq<char> {
    if p.has_auth() {
        p.provider_name@ + " (Added)"@
    } else {
        p.provider_name@
    }
}

/// The line of a provider in the list.
pub fn opencode_provider_dropdown_label(provider: &AccountProviderInfo) -> (label: String)
    ensures
        label@ == provider_line(*provider),
{
    if provider.connected || provider.has_saved_auth {
        concat(provider.provider_name.as_str(), " (Added)")
    } else {
        owned(provider.provider_name.as_str())
    }
}

/// The first provider from `from` on with an identifier.
pub open spec fn provider_from(
    providers: Seq<AccountProviderInfo>,
    id: Seq<char>,
    from: int,
) -> Option<int>
    decreases providers.len() - from,
{
    if from < 0 || from >= providers.len() {
        None
    } else if providers[from].provider_id@ == id {
        Some(from)
    } else {
        provider_from(providers, id, from + 1)
    }
}

pub fn find_provider(providers: &Vec<AccountProviderInfo>, id: &str) -> (r: Option<usize>)
    ensures
        match r {
            Some(i) => provider_from(providers@, id@, 0) == Some(i as int) && i < providers@.len(),
            None => provider_from(providers@, id@, 0) is None,
        },
{
    let mut i: usize = 0;
    while i < providers.len()
        invariant
            i <= providers@.len(),
            provider_from(providers@, id@, 0) == provider_from(providers@, id@, i as int),
        decreases providers@.len() - i,
    {
        if same(providers[i].provider_id.as_str(), id) {
            return Some(i);
        }
        i = i + 1;
    }
    None
}

pub open spec fn selector_line(
    providers: Seq<AccountProviderInfo>,
    selected: Option<Seq<char>>,
) -> Seq<char> {
    match selected {
        Some(id) => match provider_from(providers, id, 0) {
            Some(i) => provider_line(providers[i]),
            None => "(None)"@,
        },
        None => "(None)"@,
    }
}

/// What the selector of providers shows.
pub fn provider_selector_label(
    providers: &Vec<AccountProviderInfo>,
    selected: &Option<String>,
) -> (label: String)
    ensures
        label@ == selector_line(providers@, text_of_option(*selected)),
{
    match selected {
        Some(id) => match find_provider(providers, id.as_str()) {
            Some(i) => opencode_provider_dropdown_label(&providers[i]),
            None => owned("(None)"),
        },
        None => owned("(None)"),
    }
}

/// Whether a provider passes a filter, given the filter, the name and the identifier in lower case.
pub open spec fn passes_filter(query: Seq<char>, name: Seq<char>, id: Seq<char>) -> bool {
    query.len() == 0 || contains_text(name, query) || contains_text(id, query)
}

pub fn matches_filter(query: &str, lower_name: &str, lower_id: &str) -> (r: bool)
    ensures
        r == passes_filter(query@, lower_name@, lower_id@),
{
    query.is_empty() || contains(lower_name, query) || contains(lower_id, query)
}

pub open spec fn is_listed(p: AccountProviderInfo, query: Seq<char>) -> bool {
    passes_filter(query, unicode_lower(p.provider_name@), unicode_lower(p.provider_id@))
}

/// The indices below `k` of the providers that pass a filter.
pub open spec fn listed_below(
    providers: Seq<AccountProviderInfo>,
    query: Seq<char>,
    k: nat,
) -> Seq<int>
    decreases k,
{
    if k == 0 {
        Seq::empty()
    } else {
        let before = listed_below(providers, query, (k - 1) as nat);
        if is_listed(providers[k - 1], query) {
            before.push(k - 1)
        } else {
            before
        }
    }
}

/// The first of the listed providers with an identifier.
pub open spec fn listed_with(
    providers: Seq<AccountProviderInfo>,
    listed: Seq<int>,
    id: Seq<char>,
) -> bool {
    exists|p: int| 0 <= p < listed.len() && providers[#[trigger] listed[p]].provider_id@ == id
}

/// Which provider is selected once the filter changed: the one that was to be kept where it passes,
/// else the first that does; where none does, nothing for an empty filter and what was selected
/// for another.
pub open spec fn selected_after_filter(
    providers: Seq<AccountProviderInfo>,
    query: Seq<char>,
    preferred: Option<Seq<char>>,
    current: Option<Seq<char>>,
) -> Option<Seq<char>> {
    let listed = listed_below(providers, query, providers.len());
    if listed.len() == 0 {
        if query.len() == 0 {
            None
        } else {
            current
        }
    } else if preferred is Some && listed_with(providers, listed, preferred->0) {
        preferred
    } else {
        Some(providers[listed[0]].provider_id@)
    }
}

/// The providers that pass a filter, the selected one, and whether to say that none passes.
#[derive(Debug)]
pub struct FilteredProviders {
    pub listed: Vec<usize>,
    pub selected: Option<String>,
    pub says_no_match: bool,
}

pub open spec fn as_ints(indices: Seq<usize>) -> Seq<int> {
    Seq::new(indices.len(), |p: int| indices[p] as int)
}

/// Applies what was typed into the filter to the providers.
pub fn apply_provider_filter(
    providers: &Vec<AccountProviderInfo>,
    typed: &str,
    preferred: Option<&str>,
    current: &Option<String>,
) -> (r: FilteredProviders)
    ensures
        as_ints(r.listed@) == listed_below(
            providers@,
            unicode_lower(trimmed(typed@)),
            providers@.len(),
        ),
        forall|p: int| 0 <= p < r.listed@.len() ==> #[trigger] r.listed@[p] < providers@.len(),
        text_of_option(r.selected) == selected_after_filter(
            providers@,
            unicode_lower(trimmed(typed@)),
            str_option(preferred),
            text_of_option(*current),
        ),
        r.says_no_match == (r.listed@.len() == 0 && unicode_lower(trimmed(typed@)).len() > 0),
{
    let query = unicode_lowercase(trim(typed).as_str());
    let ghost q = query@;
    let mut listed: Vec<usize> = Vec::new();
    let mut keeps = false;
    let mut i: usize = 0;
    assert(as_ints(listed@) =~= Seq::empty());
    while i < providers.len()
        invariant
            i <= providers@.len(),
            q == query@,
            as_ints(listed@) == listed_below(providers@, q, i as nat),
            forall|p: int| 0 <= p < listed@.len() ==> #[trigger] listed@[p] < providers@.len(),
            keeps == (preferred is Some && listed_with(
                providers@,
                as_ints(listed@),
                preferred->0@,
            )),
        decreases providers@.len() - i,
    {
        let name = unicode_lowercase(providers[i].provider_name.as_str());
        let id = unicode_lowercase(providers[i].provider_id.as_str());
        if matches_filter(query.as_str(), name.as_str(), id.as_str()) {
            let ghost before = as_ints(listed@);
            listed.push(i);
            let ghost now = as_ints(listed@);
            assert(now =~= before.push(i as int));
            let here = match preferred {
                Some(wanted) => same(providers[i].provider_id.as_str(), wanted),
                None => false,
            };
            proof {
                if preferred is Some {
                    if here {
                        assert(now[before.len() as int] == i);
                    }
                    if listed_with(providers@, before, preferred->0@) {
                        let p = choose|p: int|
                            0 <= p < before.len() && providers@[#[trigger] before[p]].provider_id@
                                == preferred->0@;
                        assert(now[p] == before[p]);
                    }
                    if listed_with(providers@, now, preferred->0@) && !here {
                        let p = choose|p: int|
                            0 <= p < now.len() && providers@[#[trigger] now[p]].provider_id@
                                == preferred->0@;
                        assert(now[p] == before[p]);
                    }
                }
            }
            keeps = keeps || here;
        }
        i = i + 1;
    }
    let ghost all = as_ints(listed@);
    let selected = if listed.len() == 0 {
        if query.as_str().is_empty() {
            None
        } else {
            crate::threads::copy_option(current)
        }
    } else if keeps {
        match preferred {
            Some(wanted) => Some(owned(wanted)),
            None => None,
        }
    } else {
        assert(all[0] == listed@[0]);
        Some(owned(providers[listed[0]].provider_id.as_str()))
    };
    let says_no_match = listed.len() == 0 && !query.as_str().is_empty();
    FilteredProviders { listed, selected, says_no_match }
}

/// Where some provider passes the filter the selected one passes it.
pub proof fn lemma_selected_is_listed(
    providers: Seq<AccountProviderInfo>,
    query: Seq<char>,
    preferred: Option<Seq<char>>,
    current: Option<Seq<char>>,
)
    requires
        listed_below(providers, query, providers.len()).len() > 0,
    ensures
        selected_after_filter(providers, query, preferred, current) matches Some(id)
            && listed_with(providers, listed_below(providers, query, providers.len()), id),
{
    let listed = listed_below(providers, query, providers.len());
    assert(providers[listed[0]].provider_id@ == providers[listed[0]].provider_id@);
}

/// The provider that stays selected once the providers were read anew: the one that was selected
/// where it is still there, else the first.
pub fn kept_provider(providers: &Vec<AccountProviderInfo>, selected: &Option<String>) -> (r: Option<
    String,
>)
    ensures
        text_of_option(r) == (if selected is Some && provider_from(
            providers@,
            selected->0@,
            0,
        ) is Some {
            text_of_option(*selected)
        } else if providers@.len() > 0 {
            Some(providers@[0].provider_id@)
        } else {
            None
        }),
{
    match selected {
        Some(id) => {
            if find_provider(providers, id.as_str()).is_some() {
                return Some(owned(id.as_str()));
            }
        },
        None => {},
    }
    if providers.len() > 0 {
        Some(owned(providers[0].provider_id.as_str()))
    } else {
        None
    }
}

/// The names of the providers there are credentials for.
pub open spec fn authed_names(providers: Seq<AccountProviderInfo>) -> Seq<Seq<char>>
    decreases providers.len(),
{
    if providers.len() == 0 {
        Seq::empty()
    } else {
        let before = authed_names(providers.drop_last());
        if providers.last().has_auth() {
            before.push(providers.last().provider_name@)
        } else {
            before
        }
    }
}

pub open spec fn auth_line(providers: Seq<AccountProviderInfo>) -> Seq<char> {
    "Providers with auth: "@ + (if authed_names(providers).len() == 0 {
        "none"@
    } else {
        joined(authed_names(providers), ", "@)
    })
}

/// What a page says of the providers there are credentials for.
pub fn providers_with_auth_text(providers: &Vec<AccountProviderInfo>) -> (text: String)
    ensures
        text@ == auth_line(providers@),
{
    let mut names: Vec<String> = Vec::new();
    let mut i: usize = 0;
    assert(providers@.take(0) =~= Seq::empty());
    assert(names.deep_view() =~= Seq::empty());
    while i < providers.len()
        invariant
            i <= providers@.len(),
            names.deep_view() =~= authed_names(providers@.take(i as int)),
        decreases providers@.len() - i,
    {
        assert(providers@.take(i + 1).drop_last() =~= providers@.take(i as int));
        assert(providers@.take(i + 1).last() == providers@[i as int]);
        if providers[i].connected || providers[i].has_saved_auth {
            let ghost before = names.deep_view();
            names.push(owned(providers[i].provider_name.as_str()));
            assert(names.deep_view() =~= before.push(providers@[i as int].provider_name@));
        }
        i = i + 1;
    }
    assert(providers@.take(i as int) =~= providers@);
    assert(names.deep_view().len() == names@.len());
    if names.len() == 0 {
        concat("Providers with auth: ", "none")
    } else {
        concat("Providers with auth: ", join(&names, ", ").as_str())
    }
}

// ---------------------------------------------------------------------------------------------
// What can be done with a provider
// ---------------------------------------------------------------------------------------------
pub open spec fn provider_state(p: AccountProviderInfo) -> Seq<char> {
    if p.connected {
        "Connected and ready to use."@
    } else if p.has_saved_auth && p.supports_api_key {
        "API key saved. Ready to use. No extra connect step is required."@
    } else if p.has_saved_auth {
        "Credentials saved."@
    } else if p.supports_oauth && p.supports_api_key {
        "Not configured yet. Use OAuth Login or Set Provider API Key."@
    } else if p.supports_oauth {
        "Not configured yet. Use OAuth Login."@
    } else if p.supports_api_key {
        "Not configured yet. Use Set Provider API Key."@
    } else {
        "No auth methods reported."@
    }
}

/// What a page says of the selected provider, and what it allows.
#[derive(Debug)]
pub struct ProviderActions {
    pub hint: &'static str,
    pub can_login: bool,
    pub can_set_api_key: bool,
    pub can_remove: bool,
    /// The provider that the actions are for.
    pub provider: Option<usize>,
}

pub open spec fn selected_provider(
    providers: Seq<AccountProviderInfo>,
    selected: Option<Seq<char>>,
) -> Option<int> {
    match selected {
        Some(id) => provider_from(providers, id, 0),
        None => None,
    }
}

pub fn provider_actions(providers: &Vec<AccountProviderInfo>, selected: &Option<String>) -> (a:
    ProviderActions)
    ensures
        match selected_provider(providers@, text_of_option(*selected)) {
            Some(i) => {
                let p = providers@[i];
                &&& a.provider == Some(i as usize)
                &&& i < providers@.len()
                &&& a.hint@ == provider_state(p)
                &&& a.can_login == p.supports_oauth
                &&& a.can_set_api_key == p.supports_api_key
                &&& a.can_remove == p.has_auth()
            },
            None => {
                &&& a.provider is None
                &&& !a.can_login && !a.can_set_api_key && !a.can_remove
                &&& a.hint@ == (if providers@.len() == 0 {
                    "No providers reported by OpenCode yet."@
                } else {
                    "Select a provider."@
                })
            },
        },
{
    let found = match selected {
        Some(id) => find_provider(providers, id.as_str()),
        None => None,
    };
    match found {
        Some(i) => {
            let p = &providers[i];
            let hint = if p.connected {
                "Connected and ready to use."
            } else if p.has_saved_auth && p.supports_api_key {
                "API key saved. Ready to use. No extra connect step is required."
            } else if p.has_saved_auth {
                "Credentials saved."
            } else if p.supports_oauth && p.supports_api_key {
                "Not configured yet. Use OAuth Login or Set Provider API Key."
            } else if p.supports_oauth {
                "Not configured yet. Use OAuth Login."
            } else if p.supports_api_key {
                "Not configured yet. Use Set Provider API Key."
            } else {
                "No auth methods reported."
            };
            ProviderActions {
                hint,
                can_login: p.supports_oauth,
                can_set_api_key: p.supports_api_key,
                can_remove: p.connected || p.has_saved_auth,
                provider: Some(i),
            }
        },
        None => {
            let hint = if providers.len() == 0 {
                "No providers reported by OpenCode yet."
            } else {
                "Select a provider."
            };
            ProviderActions {
                hint,
                can_login: false,
                can_set_api_key: false,
                can_remove: false,
                provider: None,
            }
        },
    }
}

/// What is wanted of a provider.
#[derive(Clone, Copy, Debug, PartialEq, Eq, Structural)]
pub enum ProviderRequest {
    Login,
    SetApiKey,
    Remove,
}

pub open spec fn request_obstacle(p: AccountProviderInfo, request: ProviderRequest) -> Option<
    Seq<char>,
> {
    match request {
        ProviderRequest::Login => if p.supports_oauth {
            None
        } else {
            Some("The selected provider does not support OAuth login."@)
        },
        ProviderRequest::SetApiKey => if p.supports_api_key {
            None
        } else {
            Some("The selected provider does not support API-key login."@)
        },
        ProviderRequest::Remove => if p.has_auth() {
            None
        } else {
            Some("Selected provider has no saved auth to remove."@)
        },
    }
}

/// The provider that a request is for, or why the request is not carried out.
pub open spec fn request_target(
    providers: Seq<AccountProviderInfo>,
    selected: Option<Seq<char>>,
    request: ProviderRequest,
) -> Result<int, Seq<char>> {
    match selected {
        None => Err("Select an OpenCode provider first."@),
        Some(id) => match provider_from(providers, id, 0) {
            None => Err("Selected OpenCode provider is unavailable."@),
            Some(i) => match request_obstacle(providers[i], request) {
                Some(text) => Err(text),
                None => Ok(i),
            },
        },
    }
}

pub fn requested_provider(
    providers: &Vec<AccountProviderInfo>,
    selected: &Option<String>,
    request: ProviderRequest,
) -> (r: Result<usize, &'static str>)
    ensures
        match r {
            Ok(i) => request_target(providers@, text_of_option(*selected), request) == Ok::<
                int,
                Seq<char>,
            >(i as int) && i < providers@.len(),
            Err(text) => request_target(providers@, text_of_option(*selected), request) == Err::<
                int,
                Seq<char>,
            >(text@),
        },
{
    match selected {
        None => Err("Select an OpenCode provider first."),
        Some(id) => match find_provider(providers, id.as_str()) {
            None => Err("Selected OpenCode provider is unavailable."),
            Some(i) => {
                let p = &providers[i];
                match request {
                    ProviderRequest::Login => if p.supports_oauth {
                        Ok(i)
                    } else {
                        Err("The selected provider does not support OAuth login.")
                    },
                    ProviderRequest::SetApiKey => if p.supports_api_key {
                        Ok(i)
                    } else {
                        Err("The selected provider does not support API-key login.")
                    },
                    ProviderRequest::Remove => if p.connected || p.has_saved_auth {
                        Ok(i)
                    } else {
                        Err("Selected provider has no saved auth to remove.")
                    },
                }
            },
        },
    }
}

/// What becomes of a wish to sign out.
#[derive(Debug)]
pub enum LogoutStep {
    /// Nothing; this is said, and the page is shown anew.
    Unsupported(&'static str),
    /// Nothing; this is said.
    Refused(&'static str),
    /// The credentials of the provider at this position are removed.
    RemoveProvider(usize),
    /// The account of the profile is signed out.
    LogOut,
}

/// What becomes of a wish to sign out of a runtime: it has to support that, and on the page of a
/// runtime a provider is chosen.
pub fn logout_step(
    supports_logout: bool,
    runtime_only: bool,
    providers: &Vec<AccountProviderInfo>,
    selected: &Option<String>,
) -> (step: LogoutStep)
    ensures
        match step {
            LogoutStep::Unsupported(text) => !supports_logout && text@
                == "Logout is not supported for this runtime profile."@,
            LogoutStep::Refused(text) => supports_logout && runtime_only && request_target(
                providers@,
                text_of_option(*selected),
                ProviderRequest::Remove,
            ) == Err::<int, Seq<char>>(text@),
            LogoutStep::RemoveProvider(i) => supports_logout && runtime_only && request_target(
                providers@,
                text_of_option(*selected),
                ProviderRequest::Remove,
            ) == Ok::<int, Seq<char>>(i as int) && i < providers@.len(),
            LogoutStep::LogOut => supports_logout && !runtime_only,
        },
{
    if !supports_logout {
        return LogoutStep::Unsupported("Logout is not supported for this runtime profile.");
    }
    if !runtime_only {
        return LogoutStep::LogOut;
    }
    match requested_provider(providers, selected, ProviderRequest::Remove) {
        Ok(i) => LogoutStep::RemoveProvider(i),
        Err(text) => LogoutStep::Refused(text),
    }
}

/// What is said after signing out: of a provider, or of the profile.
pub fn logged_out_text(provider_name: Option<&str>) -> (text: String)
    ensures
        text@ == (match provider_name {
            Some(name) => "Removed "@ + name@ + " from OpenCode."@,
            None => "Logged out from this profile."@,
        }),
{
    match provider_name {
        Some(name) => concat3("Removed ", name, " from OpenCode."),
        None => owned("Logged out from this profile."),
    }
}

// ---------------------------------------------------------------------------------------------
// Models by provider
// ---------------------------------------------------------------------------------------------
/// A model as the runtime names it.
#[derive(Debug)]
pub struct ModelInfo {
    pub id: String,
    pub display_name: String,
}

/// A model in the list of its provider.
#[derive(Debug)]
pub struct ModelEntry {
    pub title: String,
    pub id: String,
}

#[verifier::ext_equal]
pub ghost struct ModelModel {
    pub title: Seq<char>,
    pub id: Seq<char>,
}

impl ModelEntry {
    pub open spec fn model(self) -> ModelModel {
        ModelModel { title: self.title@, id: self.id@ }
    }
}

pub open spec fn model_models(entries: Seq<ModelEntry>) -> Seq<ModelModel> {
    Seq::new(entries.len(), |i: int| entries[i].model())
}

pub open spec fn model_order() -> spec_fn(ModelModel, ModelModel) -> bool {
    |a: ModelModel, b: ModelModel| text_le(a.title, b.title)
}

impl Sortable for ModelEntry {
    open spec fn before(a: ModelEntry, b: ModelEntry) -> bool {
        text_le(a.title@, b.title@)
    }

    proof fn total(a: ModelEntry, b: ModelEntry) {
        lemma_text_le_total(a.title@, b.title@);
    }

    proof fn transitive(a: ModelEntry, b: ModelEntry, c: ModelEntry) {
        lemma_text_le_transitive(a.title@, b.title@, c.title@);
    }

    fn is_before(a: &ModelEntry, b: &ModelEntry) -> (r: bool) {
        not_after(a.title.as_str(), b.title.as_str())
    }
}

/// The models of one provider.
#[derive(Debug)]
pub struct ModelGroup {
    pub provider: String,
    pub models: Vec<ModelEntry>,
}

#[verifier::ext_equal]
pub ghost struct GroupModel {
    pub provider: Seq<char>,
    pub models: Seq<ModelModel>,
}

impl ModelGroup {
    pub open spec fn model(self) -> GroupModel {
        GroupModel { provider: self.provider@, models: model_models(self.models@) }
    }
}

pub open spec fn group_models(groups: Seq<ModelGroup>) -> Seq<GroupModel> {
    Seq::new(groups.len(), |i: int| groups[i].model())
}

pub open spec fn group_order() -> spec_fn(GroupModel, GroupModel) -> bool {
    |a: GroupModel, b: GroupModel| text_le(a.provider, b.provider)
}

impl Sortable for ModelGroup {
    open spec fn before(a: ModelGroup, b: ModelGroup) -> bool {
        text_le(a.provider@, b.provider@)
    }

    proof fn total(a: ModelGroup, b: ModelGroup) {
        lemma_text_le_total(a.provider@, b.provider@);
    }

    proof fn transitive(a: ModelGroup, b: ModelGroup, c: ModelGroup) {
        lemma_text_le_transitive(a.provider@, b.provider@, c.provider@);
    }

    fn is_before(a: &ModelGroup, b: &ModelGroup) -> (r: bool) {
        not_after(a.provider.as_str(), b.provider.as_str())
    }
}

/// The name of the provider with an identifier, where there are credentials for it: that of the
/// last such provider.
pub open spec fn authed_name(providers: Seq<AccountProviderInfo>, id: Seq<char>) -> Option<Seq<char>>
    decreases providers.len(),
{
    if providers.len() == 0 {
        None
    } else if providers.last().has_auth() && providers.last().provider_id@ == id {
        Some(providers.last().provider_name@)
    } else {
        authed_name(providers.drop_last(), id)
    }
}

fn authed_index(providers: &Vec<AccountProviderInfo>, id: &str) -> (r: Option<usize>)
    ensures
        match r {
            Some(i) => i < providers@.len() && authed_name(providers@, id@) == Some(
                providers@[i as int].provider_name@,
            ),
            None => authed_name(providers@, id@) is None,
        },
{
    let mut i: usize = providers.len();
    assert(providers@.take(i as int) =~= providers@);
    while i > 0
        invariant
            i <= providers@.len(),
            authed_name(providers@, id@) == authed_name(providers@.take(i as int), id@),
        decreases i,
    {
        i = i - 1;
        assert(providers@.take(i + 1).drop_last() =~= providers@.take(i as int));
        assert(providers@.take(i + 1).last() == providers@[i as int]);
        let p = &providers[i];
        if (p.connected || p.has_saved_auth) && same(p.provider_id.as_str(), id) {
            return Some(i);
        }
    }
    None
}

/// The identifier of the last provider with a name, in lower case.
pub open spec fn id_with_name(providers: Seq<AccountProviderInfo>, lower: Seq<char>) -> Option<
    Seq<char>,
>
    decreases providers.len(),
{
    if providers.len() == 0 {
        None
    } else if unicode_lower(providers.last().provider_name@) == lower {
        Some(providers.last().provider_id@)
    } else {
        id_with_name(providers.drop_last(), lower)
    }
}

fn index_with_name(providers: &Vec<AccountProviderInfo>, lower: &str) -> (r: Option<usize>)
    ensures
        match r {
            Some(i) => i < providers@.len() && id_with_name(providers@, lower@) == Some(
                providers@[i as int].provider_id@,
            ),
            None => id_with_name(providers@, lower@) is None,
        },
{
    let mut i: usize = providers.len();
    assert(providers@.take(i as int) =~= providers@);
    while i > 0
        invariant
            i <= providers@.len(),
            id_with_name(providers@, lower@) == id_with_name(
                providers@.take(i as int),
                lower@,
            ),
        decreases i,
    {
        i = i - 1;
        assert(providers@.take(i + 1).drop_last() =~= providers@.take(i as int));
        assert(providers@.take(i + 1).last() == providers@[i as int]);
        let name = unicode_lowercase(providers[i].provider_name.as_str());
        if same(name.as_str(), lower) {
            return Some(i);
        }
    }
    None
}

/// The identifier of the provider of a model: what stands before the colon of its identifier, or
/// that of the provider that its name starts with.
pub open spec fn provider_of_model(m: ModelInfo, providers: Seq<AccountProviderInfo>) -> Option<
    Seq<char>,
> {
    match split_once_at(m.id@, ":"@) {
        Some(parts) => Some(parts.0),
        None => match split_once_at(m.display_name@, " / "@) {
            Some(parts) => id_with_name(providers, unicode_lower(parts.0)),
            None => None,
        },
    }
}

/// The provider that a model is listed under.
pub open spec fn group_of_model(m: ModelInfo, providers: Seq<AccountProviderInfo>) -> Option<
    Seq<char>,
> {
    match provider_of_model(m, providers) {
        Some(id) => authed_name(providers, id),
        None => None,
    }
}

/// The line of a model: its name without that of the provider.
pub open spec fn model_entry(m: ModelInfo) -> ModelModel {
    ModelModel {
        title: match split_once_at(m.display_name@, " / "@) {
            Some(parts) => parts.1,
            None => m.display_name@,
        },
        id: m.id@,
    }
}

/// The models that are listed under a provider, in the order in which they came.
pub open spec fn models_under(
    models: Seq<ModelInfo>,
    providers: Seq<AccountProviderInfo>,
    name: Seq<char>,
) -> Seq<ModelModel>
    decreases models.len(),
{
    if models.len() == 0 {
        Seq::empty()
    } else {
        let before = models_under(models.drop_last(), providers, name);
        if group_of_model(models.last(), providers) == Some(name) {
            before.push(model_entry(models.last()))
        } else {
            before
        }
    }
}

/// A list without the entries that follow one with the same identifier.
pub open spec fn without_repeats(s: Seq<ModelModel>) -> Seq<ModelModel>
    decreases s.len(),
{
    if s.len() == 0 {
        Seq::empty()
    } else {
        let before = without_repeats(s.drop_last());
        if before.len() > 0 && before.last().id == s.last().id {
            before
        } else {
            before.push(s.last())
        }
    }
}

pub open spec fn group_for(
    models: Seq<ModelInfo>,
    providers: Seq<AccountProviderInfo>,
    name: Seq<char>,
) -> GroupModel {
    GroupModel {
        provider: name,
        models: without_repeats(sorted_by(model_order(), models_under(models, providers, name))),
    }
}

/// The names of the providers below `k` that there are credentials for, each once.
pub open spec fn distinct_names(providers: Seq<AccountProviderInfo>, k: nat) -> Seq<Seq<char>>
    decreases k,
{
    if k == 0 {
        Seq::empty()
    } else {
        let before = distinct_names(providers, (k - 1) as nat);
        let p = providers[k - 1];
        if p.has_auth() && authed_name(providers, p.provider_id@) == Some(p.provider_name@)
            && !before.contains(p.provider_name@) {
            before.push(p.provider_name@)
        } else {
            before
        }
    }
}

/// The models by provider, in the order of the names of the providers.
pub open spec fn groups_of(
    providers: Seq<AccountProviderInfo>,
    models: Seq<ModelInfo>,
) -> Seq<GroupModel> {
    let names = distinct_names(providers, providers.len());
    sorted_by(
        group_order(),
        Seq::new(names.len(), |i: int| group_for(models, providers, names[i])),
    )
}

fn group_index_of(m: &ModelInfo, providers: &Vec<AccountProviderInfo>) -> (r: Option<usize>)
    ensures
        match r {
            Some(i) => i < providers@.len() && group_of_model(*m, providers@) == Some(
                providers@[i as int].provider_name@,
            ),
            None => group_of_model(*m, providers@) is None,
        },
{
    match split_once(m.id.as_str(), ":") {
        Some((id, _)) => authed_index(providers, id.as_str()),
        None => match split_once(m.display_name.as_str(), " / ") {
            Some((name, _)) => {
                let lower = unicode_lowercase(name.as_str());
                match index_with_name(providers, lower.as_str()) {
                    Some(i) => authed_index(providers, providers[i].provider_id.as_str()),
                    None => None,
                }
            },
            None => None,
        },
    }
}

fn entry_of(m: &ModelInfo) -> (e: ModelEntry)
    ensures
        e.model() == model_entry(*m),
{
    let title = match split_once(m.display_name.as_str(), " / ") {
        Some((_, rest)) => rest,
        None => owned(m.display_name.as_str()),
    };
    ModelEntry { title, id: owned(m.id.as_str()) }
}

fn sorted_models(models: Vec<ModelEntry>) -> (out: Vec<ModelEntry>)
    ensures
        model_models(out@) == sorted_by(model_order(), model_models(models@)),
{
    proof {
        let f = |e: ModelEntry| e.model();
        lemma_values_sorted(models@, f, model_order());
        assert(values(models@, f) =~= model_models(models@));
        assert(values(stable_sorted(models@), f) =~= model_models(stable_sorted(models@)));
    }
    stable_sort(models)
}

fn drop_repeats(models: Vec<ModelEntry>) -> (out: Vec<ModelEntry>)
    ensures
        model_models(out@) == without_repeats(model_models(models@)),
{
    let ghost all = model_models(models@);
    let mut out: Vec<ModelEntry> = Vec::new();
    let mut i: usize = 0;
    assert(all.take(0) =~= Seq::empty());
    assert(model_models(out@) =~= Seq::empty());
    while i < models.len()
        invariant
            i <= models@.len(),
            all == model_models(models@),
            model_models(out@) == without_repeats(all.take(i as int)),
        decreases models@.len() - i,
    {
        assert(all.take(i + 1).drop_last() =~= all.take(i as int));
        assert(all.take(i + 1).last() == models@[i as int].model());
        let ghost before = model_models(out@);
        let repeats = out.len() > 0 && same(
            out[out.len() - 1].id.as_str(),
            models[i].id.as_str(),
        );
        assert(before.len() == out@.len());
        assert(out@.len() > 0 ==> before.last() == out@[out@.len() - 1].model());
        if !repeats {
            out.push(
                ModelEntry {
                    title: owned(models[i].title.as_str()),
                    id: owned(models[i].id.as_str()),
                },
            );
            assert(model_models(out@) =~= before.push(all[i as int]));
        }
        i = i + 1;
    }
    assert(all.take(i as int) =~= all);
    out
}

fn group_with_name(
    models: &Vec<ModelInfo>,
    providers: &Vec<AccountProviderInfo>,
    name: &str,
) -> (g: ModelGroup)
    ensures
        g.model() == group_for(models@, providers@, name@),
{
    let mut under: Vec<ModelEntry> = Vec::new();
    let mut i: usize = 0;
    assert(models@.take(0) =~= Seq::empty());
    assert(model_models(under@) =~= Seq::empty());
    while i < models.len()
        invariant
            i <= models@.len(),
            model_models(under@) =~= models_under(models@.take(i as int), providers@, name@),
        decreases models@.len() - i,
    {
        assert(models@.take(i + 1).drop_last() =~= models@.take(i as int));
        assert(models@.take(i + 1).last() == models@[i as int]);
        let here = match group_index_of(&models[i], providers) {
            Some(k) => same(providers[k].provider_name.as_str(), name),
            None => false,
        };
        if here {
            let ghost before = model_models(under@);
            under.push(entry_of(&models[i]));
            assert(model_models(under@) =~= before.push(model_entry(models@[i as int])));
        }
        i = i + 1;
    }
    assert(models@.take(i as int) =~= models@);
    ModelGroup { provider: owned(name), models: drop_repeats(sorted_models(under)) }
}

/// The models by provider, for the providers there are credentials for.
pub fn grouped_models(providers: &Vec<AccountProviderInfo>, models: &Vec<ModelInfo>) -> (out: Vec<
    ModelGroup,
>)
    ensures
        group_models(out@) == groups_of(providers@, models@),
{
    let mut names: Vec<String> = Vec::new();
    let mut groups: Vec<ModelGroup> = Vec::new();
    let mut k: usize = 0;
    assert(names.deep_view() =~= Seq::empty());
    while k < providers.len()
        invariant
            k <= providers@.len(),
            names.deep_view() =~= distinct_names(providers@, k as nat),
            group_models(groups@) =~= Seq::new(
                names@.len(),
                |i: int| group_for(models@, providers@, names.deep_view()[i]),
            ),
        decreases providers@.len() - k,
    {
        let p = &providers[k];
        if p.connected || p.has_saved_auth {
            let name = p.provider_name.as_str();
            let wins = match authed_index(providers, p.provider_id.as_str()) {
                Some(i) => same(providers[i].provider_name.as_str(), name),
                None => false,
            };
            if wins && !lists(&names, name) {
                let ghost before = names.deep_view();
                let ghost groups_before = group_models(groups@);
                let group = group_with_name(models, providers, name);
                names.push(owned(name));
                assert(names.deep_view() =~= before.push(name@));
                groups.push(group);
                assert(group_models(groups@) =~= groups_before.push(
                    group_for(models@, providers@, name@),
                ));
            }
        }
        k = k + 1;
    }
    proof {
        let f = |g: ModelGroup| g.model();
        lemma_values_sorted(groups@, f, group_order());
        assert(values(groups@, f) =~= group_models(groups@));
        assert(values(stable_sorted(groups@), f) =~= group_models(stable_sorted(groups@)));
        assert(names.deep_view().len() == names@.len());
        let found = names.deep_view();
        assert(group_models(groups@) =~= Seq::new(
            found.len(),
            |i: int| group_for(models@, providers@, found[i]),
        ));
    }
    stable_sort(groups)
}

pub open spec fn model_total(groups: Seq<GroupModel>) -> nat
    decreases groups.len(),
{
    if groups.len() == 0 {
        0
    } else {
        model_total(groups.drop_last()) + groups.last().models.len()
    }
}

pub open spec fn models_line(visible_count: int, groups: Seq<GroupModel>) -> Seq<char> {
    if groups.len() == 0 {
        "No providers with auth are connected."@
    } else if model_total(groups) == 0 {
        "No models reported for providers with auth."@
    } else {
        decimal(visible_count as nat) + " visible / "@ + (decimal(model_total(groups))
            + " total across "@ + (decimal(groups.len()) + " providers with auth."@))
    }
}

/// What the list of models says of itself.
pub fn models_status_text(visible_count: usize, groups: &Vec<ModelGroup>) -> (text: String)
    ensures
        text@ == models_line(visible_count as int, group_models(groups@)),
{
    let ghost all = group_models(groups@);
    if groups.len() == 0 {
        return owned("No providers with auth are connected.");
    }
    let mut total: u128 = 0;
    let mut i: usize = 0;
    assert(all.take(0) =~= Seq::empty());
    while i < groups.len()
        invariant
            i <= groups@.len(),
            all == group_models(groups@),
            total == model_total(all.take(i as int)),
            total <= i * 0xffff_ffff_ffff_ffff,
        decreases groups@.len() - i,
    {
        assert(all.take(i + 1).drop_last() =~= all.take(i as int));
        assert(all.take(i + 1).last() == groups@[i as int].model());
        let n = groups[i].models.len();
        assert(n <= 0xffff_ffff_ffff_ffff);
        assert(i < groups.len());
        assert((i + 1) * 0xffff_ffff_ffff_ffff == i * 0xffff_ffff_ffff_ffff
            + 0xffff_ffff_ffff_ffff);
        assert(i * 0xffff_ffff_ffff_ffff <= 0xffff_ffff_ffff_ffff * 0xffff_ffff_ffff_ffff);
        total = total + n as u128;
        i = i + 1;
    }
    assert(all.take(i as int) =~= all);
    if total == 0 {
        return owned("No models reported for providers with auth.");
    }
    let tail = concat(decimal_usize(groups.len()).as_str(), " providers with auth.");
    let middle = concat3(decimal_u128(total).as_str(), " total across ", tail.as_str());
    concat3(decimal_usize(visible_count).as_str(), " visible / ", middle.as_str())
}

/// What is said once a model was switched.
pub fn model_switched_text(hidden: bool) -> (text: &'static str)
    ensures
        text@ == (if hidden {
            "Hidden from composer."@
        } else {
            "Visible in composer."@
        }),
{
    if hidden {
        "Hidden from composer."
    } else {
        "Visible in composer."
    }
}

/// Whether a model is offered: it is not hidden.
pub fn model_is_visible(model: &ModelEntry, hidden_models: &Vec<String>) -> (r: bool)
    ensures
        r == !hidden_models.deep_view().contains(model.id@),
{
    !lists(hidden_models, model.id.as_str())
}

/// A provider has no more models than there are, and none where there are no credentials for it.
pub proof fn lemma_models_under_their_provider(
    models: Seq<ModelInfo>,
    providers: Seq<AccountProviderInfo>,
    name: Seq<char>,
)
    ensures
        models_under(models, providers, name).len() <= models.len(),
        (forall|id: Seq<char>| #[trigger] authed_name(providers, id) != Some(name)) ==> models_under(
            models,
            providers,
            name,
        ).len() == 0,
    decreases models.len(),
{
    if models.len() > 0 {
        lemma_models_under_their_provider(models.drop_last(), providers, name);
    }
}

} // verus!
