//! What the lists of providers and of their models come to.
use vstd::prelude::*;
#[allow(unused_imports)]
use crate::lines::{joined, unicode_lower};
#[allow(unused_imports)]
use crate::number::decimal;
#[allow(unused_imports)]
use crate::order::{is_order, lemma_sorted_by, sorted_by};
#[allow(unused_imports)]
use crate::providers::{
    auth_line, authed_name, authed_names, distinct_names, group_for, group_of_model, group_order,
    groups_of, id_with_name, is_listed, listed_below, listed_with, model_entry, model_order,
    model_total, models_line, models_under, provider_from, provider_of_model, provider_state,
    request_target, selected_after_filter, selector_line, without_repeats, AccountProviderInfo,
    GroupModel, ModelInfo, ModelModel, ProviderRequest,
};
#[allow(unused_imports)]
use crate::text::{
    lemma_contains_text, lemma_split_once, lemma_split_once_parts, lemma_text_le_total,
    lemma_text_le_transitive, occurs_at, split_once_at, text_le,
};

verus! {

// ---------------------------------------------------------------------------------------------
// The list of providers
// ---------------------------------------------------------------------------------------------
/// Whether a query stands in a text.
pub open spec fn stands_in(text: Seq<char>, query: Seq<char>) -> bool {
    exists|at: int| occurs_at(text, query, at)
}

/// A provider is listed where nothing is asked for, or what is asked for stands in its name or its
/// identifier, in small letters.
pub proof fn lemma_is_listed(p: AccountProviderInfo, query: Seq<char>)
    ensures
        is_listed(p, query) <==> {
            ||| query.len() == 0
            ||| stands_in(unicode_lower(p.provider_name@), query)
            ||| stands_in(unicode_lower(p.provider_id@), query)
        },
{
    lemma_contains_text(unicode_lower(p.provider_name@), query);
    lemma_contains_text(unicode_lower(p.provider_id@), query);
}

/// The listed providers are those that pass, each once, in their order.
pub proof fn lemma_listed(providers: Seq<AccountProviderInfo>, query: Seq<char>, k: nat)
    requires
        k <= providers.len(),
    ensures
        forall|i: int|
            0 <= i < k ==> (#[trigger] listed_below(providers, query, k).contains(i) <==> is_listed(
                providers[i],
                query,
            )),
        forall|a: int|
            0 <= a < listed_below(providers, query, k).len() ==> 0 <= #[trigger] listed_below(
                providers,
                query,
                k,
            )[a] < k,
        forall|a: int, b: int|
            0 <= a < b < listed_below(providers, query, k).len() ==> #[trigger] listed_below(
                providers,
                query,
                k,
            )[a] < #[trigger] listed_below(providers, query, k)[b],
    decreases k,
{
    if k > 0 {
        let before = listed_below(providers, query, (k - 1) as nat);
        let now = listed_below(providers, query, k);
        lemma_listed(providers, query, (k - 1) as nat);
        assert forall|i: int| 0 <= i < k implies (#[trigger] now.contains(i) <==> is_listed(
            providers[i],
            query,
        )) by {
            if i < k - 1 {
                if before.contains(i) {
                    let p = before.index_of(i);
                    assert(now[p] == i);
                }
                if now.contains(i) {
                    let p = now.index_of(i);
                    if p == before.len() {
                        assert(now[p] == k - 1);
                    }
                    assert(before[p] == i);
                }
                assert(before.contains(i) <==> is_listed(providers[i], query));
            } else {
                if is_listed(providers[i], query) {
                    assert(now[before.len() as int] == i);
                } else if now.contains(i) {
                    let p = now.index_of(i);
                    assert(before[p] == i);
                }
            }
        }
    }
}

/// Whether a provider with an identifier is listed.
pub open spec fn is_shown(
    providers: Seq<AccountProviderInfo>,
    query: Seq<char>,
    id: Seq<char>,
) -> bool {
    exists|i: int|
        0 <= i < providers.len() && is_listed(#[trigger] providers[i], query)
            && providers[i].provider_id@ == id
}

/// A preferred provider stays selected while it is listed; else the first one listed is. Where
/// none is listed, the selection stays while something is asked for, and there is none without.
pub proof fn lemma_selected(
    providers: Seq<AccountProviderInfo>,
    query: Seq<char>,
    preferred: Seq<char>,
    current: Option<Seq<char>>,
    first: int,
)
    ensures
        is_shown(providers, query, preferred) ==> selected_after_filter(
            providers,
            query,
            Some(preferred),
            current,
        ) == Some(preferred),
        0 <= first < providers.len() && is_listed(providers[first], query) && (forall|i: int|
            0 <= i < first ==> !is_listed(#[trigger] providers[i], query)) ==> {
            &&& selected_after_filter(providers, query, None, current) == Some(
                providers[first].provider_id@,
            )
            &&& !is_shown(providers, query, preferred) ==> selected_after_filter(
                providers,
                query,
                Some(preferred),
                current,
            ) == Some(providers[first].provider_id@)
        },
        (forall|i: int| 0 <= i < providers.len() ==> !is_listed(#[trigger] providers[i], query))
            ==> selected_after_filter(providers, query, Some(preferred), current)
            == if query.len() == 0 {
            None
        } else {
            current
        },
{
    let n = providers.len();
    let listed = listed_below(providers, query, n);
    lemma_listed(providers, query, n);
    assert(is_shown(providers, query, preferred) <==> listed_with(providers, listed, preferred)) by {
        if is_shown(providers, query, preferred) {
            let i = choose|i: int|
                0 <= i < providers.len() && is_listed(#[trigger] providers[i], query)
                    && providers[i].provider_id@ == preferred;
            assert(listed.contains(i));
            let p = listed.index_of(i);
            assert(providers[listed[p]].provider_id@ == preferred);
        }
        if listed_with(providers, listed, preferred) {
            let p = choose|p: int|
                0 <= p < listed.len() && providers[#[trigger] listed[p]].provider_id@ == preferred;
            assert(listed.contains(listed[p]));
            assert(is_listed(providers[listed[p]], query));
        }
    }
    if is_shown(providers, query, preferred) {
        assert(listed.len() > 0);
    }
    if 0 <= first < providers.len() && is_listed(providers[first], query) && (forall|i: int|
        0 <= i < first ==> !is_listed(#[trigger] providers[i], query)) {
        assert(listed.contains(first));
        let p = listed.index_of(first);
        assert(listed.contains(listed[0]));
        assert(is_listed(providers[listed[0]], query));
        if p > 0 {
            assert(listed[0] < listed[p]);
        }
        assert(listed[0] == first);
    }
    if forall|i: int| 0 <= i < providers.len() ==> !is_listed(#[trigger] providers[i], query) {
        if listed.len() > 0 {
            assert(listed.contains(listed[0]));
            assert(is_listed(providers[listed[0]], query));
        }
    }
}

/// A provider is found by its identifier, the first one of it.
pub proof fn lemma_provider_from(providers: Seq<AccountProviderInfo>, id: Seq<char>, from: int)
    requires
        0 <= from <= providers.len(),
    ensures
        match provider_from(providers, id, from) {
            Some(i) => {
                &&& from <= i < providers.len()
                &&& providers[i].provider_id@ == id
                &&& forall|j: int| from <= j < i ==> (#[trigger] providers[j]).provider_id@ != id
            },
            None => forall|j: int|
                from <= j < providers.len() ==> (#[trigger] providers[j]).provider_id@ != id,
        },
    decreases providers.len() - from,
{
    if from < providers.len() && providers[from].provider_id@ != id {
        lemma_provider_from(providers, id, from + 1);
    }
}

/// The selector names the selected provider, and says where it has been added; without one, and
/// where it is not on the list, it says so.
pub proof fn lemma_selector(providers: Seq<AccountProviderInfo>, i: int)
    requires
        0 <= i < providers.len(),
        forall|j: int| 0 <= j < i ==> (#[trigger] providers[j]).provider_id@ != providers[i].provider_id@,
    ensures
        selector_line(providers, Some(providers[i].provider_id@)) == if providers[i].connected
            || providers[i].has_saved_auth {
            providers[i].provider_name@ + " (Added)"@
        } else {
            providers[i].provider_name@
        },
        selector_line(providers, None) == "(None)"@,
        selector_line(seq![], Some(providers[i].provider_id@)) == "(None)"@,
{
    lemma_provider_from(providers, providers[i].provider_id@, 0);
}

/// A request goes to the selected provider just where it can be made: a login to one with such a
/// login, a key to one that takes keys, a removal to one with credentials.
pub proof fn lemma_request(
    providers: Seq<AccountProviderInfo>,
    id: Seq<char>,
    request: ProviderRequest,
    i: int,
)
    requires
        0 <= i < providers.len(),
        providers[i].provider_id@ == id,
        forall|j: int| 0 <= j < i ==> (#[trigger] providers[j]).provider_id@ != id,
    ensures
        request_target(providers, Some(id), request) is Ok <==> match request {
            ProviderRequest::Login => providers[i].supports_oauth,
            ProviderRequest::SetApiKey => providers[i].supports_api_key,
            ProviderRequest::Remove => providers[i].connected || providers[i].has_saved_auth,
        },
        request_target(providers, Some(id), request) is Ok ==> request_target(
            providers,
            Some(id),
            request,
        ) == Ok::<int, Seq<char>>(i),
        request_target(providers, None, request) == Err::<int, Seq<char>>(
            "Select an OpenCode provider first."@,
        ),
        request_target(seq![], Some(id), request) == Err::<int, Seq<char>>(
            "Selected OpenCode provider is unavailable."@,
        ),
{
    lemma_provider_from(providers, id, 0);
}

/// What is said of a provider follows from its credentials first, then from the ways to get some.
pub proof fn lemma_provider_state(p: AccountProviderInfo)
    ensures
        p.connected ==> provider_state(p) == "Connected and ready to use."@,
        !p.connected && p.has_saved_auth ==> provider_state(p) == if p.supports_api_key {
            "API key saved. Ready to use. No extra connect step is required."@
        } else {
            "Credentials saved."@
        },
        !p.connected && !p.has_saved_auth ==> provider_state(p) == match (
            p.supports_oauth,
            p.supports_api_key,
        ) {
            (true, true) => "Not configured yet. Use OAuth Login or Set Provider API Key."@,
            (true, false) => "Not configured yet. Use OAuth Login."@,
            (false, true) => "Not configured yet. Use Set Provider API Key."@,
            (false, false) => "No auth methods reported."@,
        },
{
}

pub open spec fn is_authed() -> spec_fn(AccountProviderInfo) -> bool {
    |p: AccountProviderInfo| p.connected || p.has_saved_auth
}

pub open spec fn names_of(providers: Seq<AccountProviderInfo>) -> Seq<Seq<char>> {
    Seq::new(providers.len(), |i: int| providers[i].provider_name@)
}

/// The providers with credentials are named in their order.
pub proof fn lemma_authed_names(providers: Seq<AccountProviderInfo>)
    ensures
        authed_names(providers) == names_of(providers.filter(is_authed())),
        auth_line(providers) == if providers.filter(is_authed()).len() == 0 {
            "Providers with auth: "@ + "none"@
        } else {
            "Providers with auth: "@ + joined(names_of(providers.filter(is_authed())), ", "@)
        },
    decreases providers.len(),
{
    reveal(Seq::filter);
    if providers.len() > 0 {
        lemma_authed_names(providers.drop_last());
        let rest = providers.drop_last().filter(is_authed());
        assert(names_of(rest.push(providers.last())) =~= names_of(rest).push(
            providers.last().provider_name@,
        ));
    } else {
        assert(names_of(providers.filter(is_authed())) =~= Seq::<Seq<char>>::empty());
    }
}

// ---------------------------------------------------------------------------------------------
// Models
// ---------------------------------------------------------------------------------------------
/// The name of a provider with credentials is that of the last one of its identifier.
pub proof fn lemma_authed_name(providers: Seq<AccountProviderInfo>, id: Seq<char>)
    ensures
        match authed_name(providers, id) {
            Some(name) => exists|i: int|
                {
                    &&& 0 <= i < providers.len()
                    &&& (#[trigger] providers[i]).provider_id@ == id
                    &&& providers[i].has_auth()
                    &&& providers[i].provider_name@ == name
                    &&& forall|j: int|
                        i < j < providers.len() ==> !(providers[j].has_auth()
                            && providers[j].provider_id@ == id)
                },
            None => forall|i: int|
                0 <= i < providers.len() ==> !((#[trigger] providers[i]).has_auth()
                    && providers[i].provider_id@ == id),
        },
    decreases providers.len(),
{
    if providers.len() > 0 {
        let rest = providers.drop_last();
        let last = providers.len() - 1;
        if providers.last().has_auth() && providers.last().provider_id@ == id {
            assert(providers[last].provider_id@ == id);
        } else {
            lemma_authed_name(rest, id);
            assert forall|i: int| 0 <= i < rest.len() implies rest[i] == #[trigger] providers[i] by {
            }
            if authed_name(rest, id) is Some {
                let i = choose|i: int|
                    {
                        &&& 0 <= i < rest.len()
                        &&& (#[trigger] rest[i]).provider_id@ == id
                        &&& rest[i].has_auth()
                        &&& rest[i].provider_name@ == authed_name(rest, id)->0
                        &&& forall|j: int|
                            i < j < rest.len() ==> !(rest[j].has_auth() && rest[j].provider_id@
                                == id)
                    };
                assert(providers[i] == rest[i]);
                assert forall|j: int| i < j < providers.len() implies !(providers[j].has_auth()
                    && providers[j].provider_id@ == id) by {
                    if j < last {
                        assert(rest[j] == providers[j]);
                    }
                }
            } else {
                assert forall|i: int| 0 <= i < providers.len() implies !((
                #[trigger] providers[i]).has_auth() && providers[i].provider_id@ == id) by {
                    if i < last {
                        assert(rest[i] == providers[i]);
                    }
                }
            }
        }
    }
}

/// A model belongs to the provider that stands before the first colon of its identifier; without
/// one, to the one whose name stands before the slash of its own name. It is titled by what stands
/// behind the slash, or by its whole name.
pub proof fn lemma_provider_of_model(
    m: ModelInfo,
    providers: Seq<AccountProviderInfo>,
    owner: Seq<char>,
    rest: Seq<char>,
    shown: Seq<char>,
)
    ensures
        m.id@ == owner + ":"@ + rest && !owner.contains(':') ==> provider_of_model(m, providers)
            == Some(owner),
        !m.id@.contains(':') && m.display_name@ == shown + " / "@ + rest && !shown.contains(' ')
            ==> provider_of_model(m, providers) == id_with_name(providers, unicode_lower(shown)),
        m.display_name@ == shown + " / "@ + rest && !shown.contains(' ') ==> model_entry(m).title
            == rest,
        !stands_in(m.display_name@, " / "@) ==> model_entry(m).title == m.display_name@,
        !m.id@.contains(':') && !stands_in(m.display_name@, " / "@) ==> provider_of_model(
            m,
            providers,
        ) is None,
        model_entry(m).id == m.id@,
{
    reveal_strlit(":");
    reveal_strlit(" / ");
    if m.id@ == owner + ":"@ + rest && !owner.contains(':') {
        lemma_split_once(owner, ":"@, rest);
    }
    lemma_split_once_parts(m.id@, ":"@);
    if !m.id@.contains(':') && split_once_at(m.id@, ":"@) is Some {
        let p = split_once_at(m.id@, ":"@)->0;
        assert(m.id@[p.0.len() as int] == ':');
    }
    if m.display_name@ == shown + " / "@ + rest && !shown.contains(' ') {
        lemma_split_once(shown, " / "@, rest);
    }
    lemma_split_once_parts(m.display_name@, " / "@);
    if split_once_at(m.display_name@, " / "@) is Some {
        let p = split_once_at(m.display_name@, " / "@)->0;
        let at = p.0.len() as int;
        assert(m.display_name@.subrange(at, at + 3) =~= " / "@);
        assert(occurs_at(m.display_name@, " / "@, at));
    }
}

/// The provider found by a name is the last one of it.
pub proof fn lemma_id_with_name(providers: Seq<AccountProviderInfo>, lower: Seq<char>)
    ensures
        match id_with_name(providers, lower) {
            Some(id) => exists|i: int|
                {
                    &&& 0 <= i < providers.len()
                    &&& (#[trigger] providers[i]).provider_id@ == id
                    &&& unicode_lower(providers[i].provider_name@) == lower
                    &&& forall|j: int|
                        i < j < providers.len() ==> unicode_lower(providers[j].provider_name@)
                            != lower
                },
            None => forall|i: int|
                0 <= i < providers.len() ==> unicode_lower(
                    (#[trigger] providers[i]).provider_name@,
                ) != lower,
        },
    decreases providers.len(),
{
    if providers.len() > 0 {
        let rest = providers.drop_last();
        let last = providers.len() - 1;
        if unicode_lower(providers.last().provider_name@) == lower {
            assert(providers[last].provider_id@ == providers.last().provider_id@);
        } else {
            lemma_id_with_name(rest, lower);
            assert forall|i: int| 0 <= i < rest.len() implies rest[i] == #[trigger] providers[i] by {
            }
            if id_with_name(rest, lower) is Some {
                let i = choose|i: int|
                    {
                        &&& 0 <= i < rest.len()
                        &&& (#[trigger] rest[i]).provider_id@ == id_with_name(rest, lower)->0
                        &&& unicode_lower(rest[i].provider_name@) == lower
                        &&& forall|j: int|
                            i < j < rest.len() ==> unicode_lower(rest[j].provider_name@) != lower
                    };
                assert(providers[i] == rest[i]);
                assert forall|j: int| i < j < providers.len() implies unicode_lower(
                    providers[j].provider_name@,
                ) != lower by {
                    if j < last {
                        assert(rest[j] == providers[j]);
                    }
                }
            } else {
                assert forall|i: int| 0 <= i < providers.len() implies unicode_lower(
                    (#[trigger] providers[i]).provider_name@,
                ) != lower by {
                    if i < last {
                        assert(rest[i] == providers[i]);
                    }
                }
            }
        }
    }
}

pub open spec fn belongs_to(
    providers: Seq<AccountProviderInfo>,
    name: Seq<char>,
) -> spec_fn(ModelInfo) -> bool {
    |m: ModelInfo| group_of_model(m, providers) == Some(name)
}

pub open spec fn entries_of(models: Seq<ModelInfo>) -> Seq<ModelModel> {
    Seq::new(models.len(), |i: int| model_entry(models[i]))
}

proof fn lemma_models_under(
    models: Seq<ModelInfo>,
    providers: Seq<AccountProviderInfo>,
    name: Seq<char>,
)
    ensures
        models_under(models, providers, name) == entries_of(
            models.filter(belongs_to(providers, name)),
        ),
    decreases models.len(),
{
    reveal(Seq::filter);
    if models.len() > 0 {
        lemma_models_under(models.drop_last(), providers, name);
        let rest = models.drop_last().filter(belongs_to(providers, name));
        assert(entries_of(rest.push(models.last())) =~= entries_of(rest).push(
            model_entry(models.last()),
        ));
    } else {
        assert(entries_of(models.filter(belongs_to(providers, name)))
            =~= Seq::<ModelModel>::empty());
    }
}

/// Whether a model differs from the one before it.
pub open spec fn differs_at(s: Seq<ModelModel>, i: int) -> bool {
    s[i].id != s[i - 1].id
}

/// Whether a model with an identifier stands in a list.
pub open spec fn holds_id(s: Seq<ModelModel>, id: Seq<char>) -> bool {
    exists|j: int| 0 <= j < s.len() && (#[trigger] s[j]).id == id
}

proof fn lemma_none_repeats(s: Seq<ModelModel>)
    ensures
        forall|i: int|
            0 < i < without_repeats(s).len() ==> #[trigger] differs_at(without_repeats(s), i),
        (forall|i: int| 0 < i < s.len() ==> #[trigger] differs_at(s, i)) ==> without_repeats(s)
            == s,
    decreases s.len(),
{
    if s.len() > 0 {
        let rest = s.drop_last();
        let before = without_repeats(rest);
        let now = without_repeats(s);
        lemma_none_repeats(rest);
        assert forall|i: int| 0 < i < now.len() implies #[trigger] differs_at(now, i) by {
            if i < before.len() {
                assert(differs_at(before, i));
            }
        }
        if forall|i: int| 0 < i < s.len() ==> #[trigger] differs_at(s, i) {
            assert forall|i: int| 0 < i < rest.len() implies #[trigger] differs_at(rest, i) by {
                assert(differs_at(s, i));
            }
            if rest.len() > 0 {
                assert(differs_at(s, s.len() - 1));
            }
            assert(rest.push(s.last()) =~= s);
        }
    }
}

proof fn lemma_none_added(s: Seq<ModelModel>, k: int)
    requires
        0 <= k < without_repeats(s).len(),
    ensures
        s.contains(without_repeats(s)[k]),
    decreases s.len(),
{
    if s.len() > 0 {
        let rest = s.drop_last();
        if k < without_repeats(rest).len() {
            lemma_none_added(rest, k);
            let m = rest.index_of(without_repeats(rest)[k]);
            assert(s[m] == rest[m]);
        } else {
            assert(s[s.len() - 1] == without_repeats(s)[k]);
        }
    }
}

proof fn lemma_none_lost(s: Seq<ModelModel>, i: int)
    requires
        0 <= i < s.len(),
    ensures
        holds_id(without_repeats(s), s[i].id),
        without_repeats(s).len() > 0,
        without_repeats(s).last().id == s.last().id,
    decreases s.len(),
{
    let rest = s.drop_last();
    let before = without_repeats(rest);
    let now = without_repeats(s);
    if rest.len() > 0 {
        lemma_none_lost(rest, 0);
    }
    if i < rest.len() {
        lemma_none_lost(rest, i);
        let j = choose|j: int| 0 <= j < before.len() && (#[trigger] before[j]).id == rest[i].id;
        assert(now[j] == before[j]);
    } else {
        assert(now[now.len() - 1].id == s[i].id);
    }
}

proof fn lemma_model_order()
    ensures
        is_order(model_order()),
{
    let le = model_order();
    assert forall|a: ModelModel, b: ModelModel| #[trigger] le(a, b) || le(b, a) by {
        lemma_text_le_total(a.title, b.title);
    }
    assert forall|a: ModelModel, b: ModelModel, c: ModelModel| #[trigger]
        le(a, b) && #[trigger] le(b, c) implies le(a, c) by {
        lemma_text_le_transitive(a.title, b.title, c.title);
    }
}

proof fn lemma_group_order()
    ensures
        is_order(group_order()),
{
    let le = group_order();
    assert forall|a: GroupModel, b: GroupModel| #[trigger] le(a, b) || le(b, a) by {
        lemma_text_le_total(a.provider, b.provider);
    }
    assert forall|a: GroupModel, b: GroupModel, c: GroupModel| #[trigger]
        le(a, b) && #[trigger] le(b, c) implies le(a, c) by {
        lemma_text_le_transitive(a.provider, b.provider, c.provider);
    }
}

/// The models under a provider are those that belong to it: every identifier of one stands there,
/// nothing else does, and none twice in a row.
pub proof fn lemma_group(
    models: Seq<ModelInfo>,
    providers: Seq<AccountProviderInfo>,
    name: Seq<char>,
)
    ensures
        group_for(models, providers, name).provider == name,
        ({
            let group = group_for(models, providers, name).models;
            &&& forall|i: int|
                0 <= i < models.len() && group_of_model(#[trigger] models[i], providers) == Some(
                    name,
                ) ==> holds_id(group, models[i].id@)
            &&& forall|j: int|
                0 <= j < group.len() ==> exists|i: int|
                    {
                        &&& 0 <= i < models.len()
                        &&& group_of_model(#[trigger] models[i], providers) == Some(name)
                        &&& #[trigger] group[j] == model_entry(models[i])
                    }
            &&& forall|j: int| 0 < j < group.len() ==> #[trigger] differs_at(group, j)
        }),
{
    let group = group_for(models, providers, name).models;
    let kept = models.filter(belongs_to(providers, name));
    let under = models_under(models, providers, name);
    let sorted = sorted_by(model_order(), under);
    lemma_models_under(models, providers, name);
    lemma_model_order();
    lemma_sorted_by(model_order(), under, arbitrary());
    lemma_none_repeats(sorted);
    assert forall|i: int|
        0 <= i < models.len() && group_of_model(#[trigger] models[i], providers) == Some(
            name,
        ) implies holds_id(group, models[i].id@) by {
        lemma_filter_keeps(models, belongs_to(providers, name), i);
        let k = kept.index_of(models[i]);
        assert(under[k] == model_entry(models[i]));
        assert(under.contains(under[k]));
        assert(sorted.contains(under[k]));
        let m = sorted.index_of(under[k]);
        lemma_none_lost(sorted, m);
    }
    assert forall|j: int| 0 <= j < group.len() implies exists|i: int|
        {
            &&& 0 <= i < models.len()
            &&& group_of_model(#[trigger] models[i], providers) == Some(name)
            &&& #[trigger] group[j] == model_entry(models[i])
        } by {
        lemma_none_added(sorted, j);
        assert(under.contains(group[j]));
        let k = under.index_of(group[j]);
        assert(kept.contains(kept[k]));
        lemma_filter_drawn(models, belongs_to(providers, name), k);
        let i = models.index_of(kept[k]);
        assert(models[i] == kept[k]);
    }
}

proof fn lemma_filter_keeps<T>(s: Seq<T>, p: spec_fn(T) -> bool, i: int)
    requires
        0 <= i < s.len(),
        p(s[i]),
    ensures
        s.filter(p).contains(s[i]),
    decreases s.len(),
{
    reveal(Seq::filter);
    let rest = s.drop_last();
    if i < rest.len() {
        lemma_filter_keeps(rest, p, i);
        let k = rest.filter(p).index_of(s[i]);
        assert(s.filter(p)[k] == s[i]);
    } else {
        assert(s.filter(p).last() == s[i]);
    }
}

proof fn lemma_filter_drawn<T>(s: Seq<T>, p: spec_fn(T) -> bool, k: int)
    requires
        0 <= k < s.filter(p).len(),
    ensures
        s.contains(s.filter(p)[k]),
        p(s.filter(p)[k]),
    decreases s.len(),
{
    reveal(Seq::filter);
    if s.len() > 0 {
        let rest = s.drop_last();
        if k < rest.filter(p).len() {
            lemma_filter_drawn(rest, p, k);
            let i = rest.index_of(s.filter(p)[k]);
            assert(s[i] == rest[i]);
        } else {
            assert(s[s.len() - 1] == s.filter(p)[k]);
        }
    }
}

proof fn lemma_distinct_names(providers: Seq<AccountProviderInfo>, k: nat)
    requires
        k <= providers.len(),
    ensures
        forall|a: int, b: int|
            0 <= a < b < distinct_names(providers, k).len() ==> #[trigger] distinct_names(
                providers,
                k,
            )[a] != #[trigger] distinct_names(providers, k)[b],
        forall|i: int|
            0 <= i < k && (#[trigger] providers[i]).has_auth() && authed_name(
                providers,
                providers[i].provider_id@,
            ) == Some(providers[i].provider_name@) ==> distinct_names(providers, k).contains(
                providers[i].provider_name@,
            ),
        forall|a: int|
            0 <= a < distinct_names(providers, k).len() ==> exists|i: int|
                {
                    &&& 0 <= i < k
                    &&& (#[trigger] providers[i]).has_auth()
                    &&& providers[i].provider_name@ == #[trigger] distinct_names(providers, k)[a]
                },
    decreases k,
{
    if k > 0 {
        let before = distinct_names(providers, (k - 1) as nat);
        let now = distinct_names(providers, k);
        lemma_distinct_names(providers, (k - 1) as nat);
        assert forall|i: int|
            0 <= i < k && (#[trigger] providers[i]).has_auth() && authed_name(
                providers,
                providers[i].provider_id@,
            ) == Some(providers[i].provider_name@) implies now.contains(
            providers[i].provider_name@,
        ) by {
            let name = providers[i].provider_name@;
            if before.contains(name) {
                let p = before.index_of(name);
                assert(now[p] == name);
            } else {
                assert(now[before.len() as int] == name);
            }
        }
        assert forall|a: int, b: int| 0 <= a < b < now.len() implies #[trigger] now[a]
            != #[trigger] now[b] by {
            if b == before.len() {
                assert(before.contains(before[a]));
            }
        }
        assert forall|a: int| 0 <= a < now.len() implies exists|i: int|
            {
                &&& 0 <= i < k
                &&& (#[trigger] providers[i]).has_auth()
                &&& providers[i].provider_name@ == #[trigger] now[a]
            } by {
            if a < before.len() {
                assert(now[a] == before[a]);
                let i = choose|i: int|
                    {
                        &&& 0 <= i < k - 1
                        &&& (#[trigger] providers[i]).has_auth()
                        &&& providers[i].provider_name@ == before[a]
                    };
                assert(providers[i].has_auth());
            } else {
                assert(providers[k - 1].has_auth());
            }
        }
    }
}

/// The groups stand in the order of their names, no name twice; each holds the models of a
/// provider with credentials, and each such provider has its group.
pub proof fn lemma_groups(providers: Seq<AccountProviderInfo>, models: Seq<ModelInfo>)
    ensures
        ({
            let groups = groups_of(providers, models);
            &&& forall|i: int, j: int|
                0 <= i < j < groups.len() ==> text_le(
                    (#[trigger] groups[i]).provider,
                    (#[trigger] groups[j]).provider,
                )
            &&& forall|g: GroupModel| #[trigger]
                groups.contains(g) ==> g == group_for(models, providers, g.provider) && exists|
                    i: int,
                |
                    {
                        &&& 0 <= i < providers.len()
                        &&& (#[trigger] providers[i]).has_auth()
                        &&& providers[i].provider_name@ == g.provider
                    }
            &&& forall|i: int|
                0 <= i < providers.len() && (#[trigger] providers[i]).has_auth() && authed_name(
                    providers,
                    providers[i].provider_id@,
                ) == Some(providers[i].provider_name@) ==> groups.contains(
                    group_for(models, providers, providers[i].provider_name@),
                )
        }),
{
    let n = providers.len();
    let names = distinct_names(providers, n);
    let unsorted = Seq::new(names.len(), |i: int| group_for(models, providers, names[i]));
    let groups = groups_of(providers, models);
    lemma_distinct_names(providers, n);
    lemma_group_order();
    lemma_sorted_by(group_order(), unsorted, arbitrary());
    assert forall|i: int, j: int| 0 <= i < j < groups.len() implies text_le(
        (#[trigger] groups[i]).provider,
        (#[trigger] groups[j]).provider,
    ) by {
        let le = group_order();
        assert(le(groups[i], groups[j]));
    }
    assert forall|g: GroupModel| #[trigger] groups.contains(g) implies g == group_for(
        models,
        providers,
        g.provider,
    ) && exists|i: int|
        {
            &&& 0 <= i < providers.len()
            &&& (#[trigger] providers[i]).has_auth()
            &&& providers[i].provider_name@ == g.provider
        } by {
        assert(unsorted.contains(g));
        let a = unsorted.index_of(g);
        assert(unsorted[a] == group_for(models, providers, names[a]));
    }
    assert forall|i: int|
        0 <= i < providers.len() && (#[trigger] providers[i]).has_auth() && authed_name(
            providers,
            providers[i].provider_id@,
        ) == Some(providers[i].provider_name@) implies groups.contains(
        group_for(models, providers, providers[i].provider_name@),
    ) by {
        let name = providers[i].provider_name@;
        assert(names.contains(name));
        let a = names.index_of(name);
        assert(unsorted[a] == group_for(models, providers, name));
        assert(unsorted.contains(unsorted[a]));
    }
}

/// The line over the groups counts their models, and says where there is nothing to count.
pub proof fn lemma_models_line(visible: int, groups: Seq<GroupModel>, one: GroupModel)
    ensures
        model_total(groups.push(one)) == model_total(groups) + one.models.len(),
        models_line(visible, seq![]) == "No providers with auth are connected."@,
        one.models.len() == 0 ==> models_line(visible, seq![one])
            == "No models reported for providers with auth."@,
        one.models.len() > 0 ==> models_line(visible, groups.push(one)) == decimal(visible as nat)
            + " visible / "@ + decimal(model_total(groups) + one.models.len())
            + " total across "@ + decimal(groups.len() + 1) + " providers with auth."@,
{
    assert(groups.push(one).drop_last() =~= groups);
    assert(seq![one].drop_last() =~= Seq::<GroupModel>::empty());
    assert(model_total(seq![one].drop_last()) == 0);
    if one.models.len() > 0 {
        let all = groups.push(one);
        assert(models_line(visible, all) =~= decimal(visible as nat) + " visible / "@ + decimal(
            model_total(all),
        ) + " total across "@ + decimal(all.len()) + " providers with auth."@);
    }
}

} // verus!
