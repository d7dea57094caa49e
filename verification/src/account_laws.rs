//! What the lists of profiles, logins and servers come to.
use vstd::prelude::*;
#[allow(unused_imports)]
use crate::layout_store::trimmed_text;
#[allow(unused_imports)]
use crate::lines::ascii_lower;
#[allow(unused_imports)]
use crate::login::{
    account_title, api_key_entry, api_key_obstacle, connected_names, entered_code,
    flow_instructions, flow_operation, provider_list_problem, OAuthFlowInfo, ProviderListReply,
};
#[allow(unused_imports)]
use crate::order::{is_order, lemma_sorted_by, sorted_by};
#[allow(unused_imports)]
use crate::profiles::{
    account_line, account_or_none, choice_from, chosen, first_account, has_account, icon_choice,
    icon_title, offered, profile_line, settled_icon, AccountInfo, ProfilePage, ProfileRecord,
};
#[allow(unused_imports)]
use crate::skills_mcp::{
    auth_of, entry_order, is_name, is_name_char, item_with_key, mcp_entry, name_chars, popup_status,
    server_name, skill_entry, toggle_target, unsorted_entries, CatalogItem, EntryKind, EntryModel,
    McpServerInfo,
};
#[allow(unused_imports)]
use crate::text::{
    ascii_lower_char, ends_with_text, is_space, lemma_prefix, lemma_text_le_total,
    lemma_text_le_transitive, text_le, trimmed, without_prefix,
};
#[allow(unused_imports)]
use crate::text_laws::{is_blank, is_tight, lemma_trimmed_blank};

verus! {

// ---------------------------------------------------------------------------------------------
// Profiles
// ---------------------------------------------------------------------------------------------
pub open spec fn is_choice(
    backend: Option<Seq<char>>,
    system_only: bool,
    system_home: Seq<char>,
) -> spec_fn(ProfileRecord) -> bool {
    |p: ProfileRecord|
        {
            &&& backend is None || ascii_lower(p.backend_kind@) == ascii_lower(backend->0)
            &&& system_only ==> trimmed(p.home_dir@) == trimmed(system_home)
        }
}

/// The profiles on offer are those of the wanted backend, in any case of its letters, and of the
/// system where only that one is wanted, in their order.
pub proof fn lemma_offered(
    profiles: Seq<ProfileRecord>,
    backend: Option<Seq<char>>,
    system_only: bool,
    system_home: Seq<char>,
)
    ensures
        offered(profiles, backend, system_only, system_home) == profiles.filter(
            is_choice(backend, system_only, system_home),
        ),
    decreases profiles.len(),
{
    reveal(Seq::filter);
    if profiles.len() > 0 {
        lemma_offered(profiles.drop_last(), backend, system_only, system_home);
    }
}

/// The wanted profile is chosen, the last of its identifier; where it is not there, the first is.
pub proof fn lemma_chosen(ids: Seq<i64>, wanted: Option<i64>)
    ensures
        wanted is None || !ids.contains(wanted->0) ==> chosen(ids, wanted) == 0,
        wanted is Some && ids.contains(wanted->0) ==> {
            &&& 0 <= chosen(ids, wanted) < ids.len()
            &&& ids[chosen(ids, wanted)] == wanted->0
            &&& forall|j: int| chosen(ids, wanted) < j < ids.len() ==> ids[j] != wanted->0
        },
    decreases ids.len(),
{
    if ids.len() > 0 {
        let rest = ids.drop_last();
        lemma_chosen(rest, wanted);
        if wanted is Some {
            if rest.contains(wanted->0) {
                let k = rest.index_of(wanted->0);
                assert(ids[k] == wanted->0);
            }
            if ids.contains(wanted->0) && ids.last() != wanted->0 {
                let k = ids.index_of(wanted->0);
                assert(rest[k] == wanted->0);
                assert forall|j: int| chosen(ids, wanted) < j < ids.len() implies ids[j]
                    != wanted->0 by {
                    if j < rest.len() {
                        assert(rest[j] == ids[j]);
                    }
                }
            }
            if ids.last() == wanted->0 {
                assert(ids[ids.len() - 1] == wanted->0);
            }
        }
    }
}

proof fn lemma_choice_from(icon: Seq<char>, from: int)
    requires
        0 <= from <= 15,
    ensures
        match choice_from(icon, from) {
            Some(i) => {
                &&& from <= i < 15
                &&& icon_choice(i).0 == icon
                &&& forall|j: int| from <= j < i ==> (#[trigger] icon_choice(j)).0 != icon
            },
            None => forall|j: int| from <= j < 15 ==> (#[trigger] icon_choice(j)).0 != icon,
        },
    decreases 15 - from,
{
    if from < 15 && icon_choice(from).0 != icon {
        lemma_choice_from(icon, from + 1);
    }
}

/// Any of the fifteen icons stays as it is, but for whitespace around it; anything else becomes
/// the person. Each icon has its own title.
pub proof fn lemma_icons(icon: Seq<char>, i: int)
    ensures
        0 <= i < 15 && trimmed(icon) == icon_choice(i).0 && icon_choice(i).0.len() > 0
            ==> settled_icon(Some(icon)) == icon_choice(i).0,
        (forall|j: int| 0 <= j < 15 ==> (#[trigger] icon_choice(j)).0 != trimmed(icon))
            ==> settled_icon(Some(icon)) == "person-symbolic"@,
        is_blank(icon) ==> settled_icon(Some(icon)) == "person-symbolic"@,
        settled_icon(None) == "person-symbolic"@,
        0 <= i < 15 && (forall|j: int|
            0 <= j < i ==> (#[trigger] icon_choice(j)).0 != icon_choice(i).0) ==> icon_title(
            icon_choice(i).0,
        ) == icon_choice(i).1,
        (forall|j: int| 0 <= j < 15 ==> (#[trigger] icon_choice(j)).0 != icon) ==> icon_title(icon)
            == "Profile Icon"@,
{
    lemma_choice_from(trimmed(icon), 0);
    lemma_choice_from(icon, 0);
    lemma_trimmed_blank(icon);
    if 0 <= i < 15 {
        lemma_choice_from(icon_choice(i).0, 0);
    }
}

/// A profile is named with its state, and with its account where it has one.
pub proof fn lemma_profile_line(p: ProfileRecord, running: Seq<i64>)
    ensures
        ({
            let runs = ascii_lower(p.status@) == ascii_lower("running"@) || running.contains(p.id);
            let state = if runs {
                "Running"@
            } else {
                "Stopped"@
            };
            &&& p.last_email is Some && !is_blank(p.last_email->0@) ==> profile_line(p, running)
                == p.name@ + " ("@ + state + " | "@ + trimmed(p.last_email->0@) + ")"@
            &&& p.last_email is None && p.last_account_type is None ==> profile_line(p, running)
                == p.name@ + " ("@ + state + ")"@
            &&& p.last_email is None && p.last_account_type is Some && !is_blank(
                p.last_account_type->0@,
            ) ==> profile_line(p, running) == p.name@ + " ("@ + state + " | "@ + trimmed(
                p.last_account_type->0@,
            ) + ")"@
        }),
        p.last_email is Some ==> account_or_none(p) == p.last_email->0@,
        p.last_email is None && p.last_account_type is Some ==> account_or_none(p)
            == p.last_account_type->0@,
        p.last_email is None && p.last_account_type is None ==> account_or_none(p)
            == "not logged in"@,
{
    let state = if p.runs(running) {
        "Running"@
    } else {
        "Stopped"@
    };
    if p.last_email is Some {
        lemma_trimmed_blank(p.last_email->0@);
    }
    if p.last_account_type is Some {
        lemma_trimmed_blank(p.last_account_type->0@);
    }
    if trimmed_text(p.account()) is Some {
        let account = trimmed_text(p.account())->0;
        assert(profile_line(p, running) =~= p.name@ + " ("@ + state + " | "@ + account + ")"@);
    } else {
        assert(profile_line(p, running) =~= p.name@ + " ("@ + state + ")"@);
    }
}

/// The first account that anyone reports is taken.
pub proof fn lemma_first_account(replies: Seq<Option<AccountInfo>>, from: int)
    requires
        0 <= from <= replies.len(),
    ensures
        match first_account(replies, from) {
            Some(i) => {
                &&& from <= i < replies.len()
                &&& replies[i] is Some
                &&& forall|j: int| from <= j < i ==> (#[trigger] replies[j]) is None
            },
            None => forall|j: int| from <= j < replies.len() ==> (#[trigger] replies[j]) is None,
        },
    decreases replies.len() - from,
{
    if from < replies.len() && replies[from] is None {
        lemma_first_account(replies, from + 1);
    }
}

// ---------------------------------------------------------------------------------------------
// Logins
// ---------------------------------------------------------------------------------------------
/// What is pasted or typed counts without the whitespace around it, and not where there is nothing
/// else; a code counts only while one is waited for, a key only for a provider on the list.
pub proof fn lemma_entered(text: Seq<char>, count: int, selected: int)
    ensures
        !is_blank(text) ==> entered_code(true, text) == Ok::<Seq<char>, Seq<char>>(trimmed(text)),
        is_blank(text) ==> entered_code(true, text) == Err::<Seq<char>, Seq<char>>(
            "Paste the authorization code first."@,
        ),
        entered_code(false, text) == Err::<Seq<char>, Seq<char>>(
            "No OAuth flow is waiting for a callback code."@,
        ),
        selected < count && !is_blank(text) ==> api_key_entry(count, selected, text) == Ok::<
            Seq<char>,
            Seq<char>,
        >(trimmed(text)),
        selected < count && is_blank(text) ==> api_key_entry(count, selected, text) == Err::<
            Seq<char>,
            Seq<char>,
        >("API key is required."@),
        selected >= count ==> api_key_entry(count, selected, text) == Err::<Seq<char>, Seq<char>>(
            "Select a provider."@,
        ),
{
    lemma_trimmed_blank(text);
}

/// The names of connected providers stand in brackets behind the name of the runtime; anything
/// else is shown as it is.
pub proof fn lemma_connected_names(names: Seq<char>, text: Seq<char>)
    ensures
        !is_blank(names) ==> connected_names("OpenCode ["@ + names + "]"@) == trimmed(names),
        is_blank(names) ==> connected_names("OpenCode ["@ + names + "]"@) == "OpenCode ["@ + names
            + "]"@,
        without_prefix(text, "OpenCode ["@) is None ==> connected_names(text) == text,
{
    reveal_strlit("]");
    lemma_trimmed_blank(names);
    let rest = names + "]"@;
    let whole = "OpenCode ["@ + names + "]"@;
    assert(whole =~= "OpenCode ["@ + rest);
    lemma_prefix(whole, "OpenCode ["@);
    assert(without_prefix("OpenCode ["@ + rest, "OpenCode ["@) == Some(rest));
    assert(rest.subrange(rest.len() - 1, rest.len() as int) =~= "]"@);
    assert(ends_with_text(rest, "]"@));
    assert(rest.take(rest.len() - 1) =~= names);
}

/// A key can be entered just where the runtime that started is the one that takes keys.
pub proof fn lemma_api_key_obstacle(started: Result<Seq<char>, Seq<char>>)
    ensures
        api_key_obstacle(started) is None <==> started == Ok::<Seq<char>, Seq<char>>("opencode"@),
{
}

/// An account is called by its address, and without one by its type.
pub proof fn lemma_account_title(a: AccountInfo)
    ensures
        a.email is Some ==> account_title(a) == a.email->0@,
        a.email is None ==> account_title(a) == a.account_type@,
{
}

/// What is said of a login does not depend on its address or its provider; a code for the browser
/// comes before what the provider says, which comes before anything else.
pub proof fn lemma_instructions(f: OAuthFlowInfo)
    ensures
        f.device_code is Some ==> flow_instructions(f)
            == "Open the page above, enter the code below, and finish login in your browser."@,
        f.device_code is None && f.instructions is Some && !is_blank(f.instructions->0@)
            ==> flow_instructions(f) == f.instructions->0@,
        f.device_code is None && f.instructions is None && f.method@ == "code"@
            ==> flow_instructions(f)
            == "Open the link above, finish the provider login, then paste the returned authorization code below."@,
        f.device_code is None && f.instructions is None && f.method@ != "code"@
            ==> flow_instructions(f)
            == "Open the link above and finish the provider login in your browser."@,
{
    if f.instructions is Some {
        lemma_trimmed_blank(f.instructions->0@);
    }
}

// ---------------------------------------------------------------------------------------------
// Servers
// ---------------------------------------------------------------------------------------------
/// In the name of a server letters become small, whitespace and dots an underscore, one for
/// several in a row; what else cannot stand in a name is left out.
pub proof fn lemma_name_chars(s: Seq<char>, c: char)
    ensures
        name_chars(seq![]) == Seq::<char>::empty(),
        is_name_char(ascii_lower_char(c)) ==> name_chars(s.push(c)) == name_chars(s).push(
            ascii_lower_char(c),
        ),
        is_space(c) || c == '.' ==> name_chars(s.push(c)) == if name_chars(s).len() > 0
            && name_chars(s).last() == '_' {
            name_chars(s)
        } else {
            name_chars(s).push('_')
        },
        !is_name_char(ascii_lower_char(c)) && !is_space(c) && c != '.' ==> name_chars(s.push(c))
            == name_chars(s),
        is_name(s) ==> name_chars(s) == s,
    decreases s.len(),
{
    assert(s.push(c).drop_last() =~= s);
    lemma_lower_space(c);
    if is_name(s) && s.len() > 0 {
        assert(is_name_char(s[s.len() - 1]));
        assert(is_name(s.drop_last())) by {
            assert forall|i: int| 0 <= i < s.drop_last().len() implies is_name_char(
                #[trigger] s.drop_last()[i],
            ) by {
                assert(is_name_char(s[i]));
            }
        }
        lemma_name_chars(s.drop_last(), s.last());
        assert(s.drop_last().push(s.last()) =~= s);
        assert(ascii_lower_char(s.last()) == s.last());
    }
}

proof fn lemma_lower_space(c: char)
    ensures
        is_space(ascii_lower_char(c)) == is_space(c),
        (ascii_lower_char(c) == '.') == (c == '.'),
{
}

/// The case of letters does not tell servers apart.
pub proof fn lemma_name_any_case(s: Seq<char>)
    ensures
        name_chars(ascii_lower(s)) == name_chars(s),
    decreases s.len(),
{
    if s.len() > 0 {
        assert(ascii_lower(s).drop_last() =~= ascii_lower(s.drop_last()));
        assert(ascii_lower(s).last() == ascii_lower_char(s.last()));
        lemma_name_any_case(s.drop_last());
        assert(ascii_lower_char(ascii_lower_char(s.last())) == ascii_lower_char(s.last()));
    }
}

/// Whether a report is about a server.
pub open spec fn is_about(status: McpServerInfo, name: Seq<char>) -> bool {
    server_name(status.name@) == name
}

/// What is known of the login of a server is what the last report of its name says; without one
/// it is unknown, and counts as none.
pub proof fn lemma_auth_of(statuses: Seq<McpServerInfo>, name: Seq<char>, i: int)
    ensures
        (forall|j: int| 0 <= j < statuses.len() ==> !is_about(#[trigger] statuses[j], name))
            ==> auth_of(statuses, name) == ("Unknown"@, false),
        0 <= i < statuses.len() && is_about(statuses[i], name) && (forall|j: int|
            i < j < statuses.len() ==> !is_about(#[trigger] statuses[j], name)) ==> auth_of(
            statuses,
            name,
        ) == (statuses[i].auth_label@, statuses[i].authenticated),
    decreases statuses.len(),
{
    if statuses.len() > 0 {
        let rest = statuses.drop_last();
        let last = statuses.len() - 1;
        lemma_auth_of(rest, name, i);
        if is_about(statuses[last], name) {
        } else {
            assert forall|j: int|
                0 <= j < rest.len() && !is_about(statuses[j], name) implies !is_about(
                #[trigger] rest[j],
                name,
            ) by {
                assert(rest[j] == statuses[j]);
            }
            if 0 <= i < rest.len() {
                assert(rest[i] == statuses[i]);
            }
        }
    }
}

/// Whether an entry may stand before another: skills before servers, and each by their names in
/// small letters.
pub open spec fn stands_before(a: EntryModel, b: EntryModel) -> bool {
    &&& a.kind == EntryKind::Mcp ==> b.kind == EntryKind::Mcp
    &&& a.kind == b.kind ==> text_le(ascii_lower(a.name), ascii_lower(b.name))
}

/// Whether an entry shows a skill.
pub open spec fn shows_skill(e: EntryModel, item: CatalogItem, assigned: Seq<Seq<char>>) -> bool {
    &&& e.kind == EntryKind::Skill
    &&& e.key == item.key@
    &&& e.name == item.name@
    &&& e.description == item.description@
    &&& e.assigned == assigned.contains(item.key@)
}

/// Whether an entry shows a server, with what is known of its login.
pub open spec fn shows_server(
    e: EntryModel,
    item: CatalogItem,
    assigned: Seq<Seq<char>>,
    statuses: Seq<McpServerInfo>,
) -> bool {
    &&& e.kind == EntryKind::Mcp
    &&& e.key == item.key@
    &&& e.name == item.name@
    &&& e.description == item.description@
    &&& e.assigned == assigned.contains(item.key@)
    &&& e.auth_label == Some(auth_of(statuses, server_name(item.name@)).0)
    &&& e.authenticated == Some(auth_of(statuses, server_name(item.name@)).1)
}

/// The entries stand with skills before servers, each in the order of their names; every skill and
/// every server of the catalogs has its entry, and there are no others.
pub proof fn lemma_entries(
    skills: Seq<CatalogItem>,
    mcps: Seq<CatalogItem>,
    assigned_skills: Seq<Seq<char>>,
    assigned_mcps: Seq<Seq<char>>,
    statuses: Seq<McpServerInfo>,
    i: int,
    j: int,
)
    ensures
        ({
            let entries = sorted_by(
                entry_order(),
                unsorted_entries(skills, mcps, assigned_skills, assigned_mcps, statuses),
            );
            &&& entries.len() == skills.len() + mcps.len()
            &&& 0 <= i < j < entries.len() ==> stands_before(entries[i], entries[j])
            &&& 0 <= i < skills.len() ==> exists|k: int|
                0 <= k < entries.len() && shows_skill(
                    #[trigger] entries[k],
                    skills[i],
                    assigned_skills,
                )
            &&& 0 <= i < mcps.len() ==> exists|k: int|
                0 <= k < entries.len() && shows_server(
                    #[trigger] entries[k],
                    mcps[i],
                    assigned_mcps,
                    statuses,
                )
        }),
{
    let unsorted = unsorted_entries(skills, mcps, assigned_skills, assigned_mcps, statuses);
    let entries = sorted_by(entry_order(), unsorted);
    lemma_entry_order();
    lemma_sorted_by(entry_order(), unsorted, arbitrary());
    let le = entry_order();
    if 0 <= i < j < entries.len() {
        assert(le(entries[i], entries[j]));
    }
    if 0 <= i < skills.len() {
        assert(unsorted[i] == skill_entry(skills[i], assigned_skills));
        assert(unsorted.contains(unsorted[i]));
        assert(entries.contains(unsorted[i]));
        let k = entries.index_of(unsorted[i]);
        assert(shows_skill(entries[k], skills[i], assigned_skills));
    }
    if 0 <= i < mcps.len() {
        let at = skills.len() + i;
        assert(unsorted[at] == mcp_entry(mcps[i], assigned_mcps, statuses));
        assert(unsorted.contains(unsorted[at]));
        assert(entries.contains(unsorted[at]));
        let k = entries.index_of(unsorted[at]);
        assert(shows_server(entries[k], mcps[i], assigned_mcps, statuses));
    }
}

proof fn lemma_entry_order()
    ensures
        is_order(entry_order()),
{
    let le = entry_order();
    assert forall|a: EntryModel, b: EntryModel| #[trigger] le(a, b) || le(b, a) by {
        lemma_text_le_total(ascii_lower(a.name), ascii_lower(b.name));
    }
    assert forall|a: EntryModel, b: EntryModel, c: EntryModel| #[trigger]
        le(a, b) && #[trigger] le(b, c) implies le(a, c) by {
        if text_le(ascii_lower(a.name), ascii_lower(b.name)) && text_le(
            ascii_lower(b.name),
            ascii_lower(c.name),
        ) {
            lemma_text_le_transitive(
                ascii_lower(a.name),
                ascii_lower(b.name),
                ascii_lower(c.name),
            );
        }
    }
}

proof fn lemma_item_with_key(keys: Seq<Seq<char>>, key: Seq<char>)
    ensures
        match item_with_key(keys, key) {
            Some(i) => {
                &&& 0 <= i < keys.len()
                &&& keys[i] == key
                &&& forall|j: int| 0 <= j < i ==> keys[j] != key
            },
            None => !keys.contains(key),
        },
    decreases keys.len(),
{
    if keys.len() > 0 && keys.first() != key {
        let rest = keys.drop_first();
        lemma_item_with_key(rest, key);
        match item_with_key(rest, key) {
            Some(i) => {
                assert(keys[i + 1] == rest[i]);
                assert forall|j: int| 0 <= j < i + 1 implies keys[j] != key by {
                    if j > 0 {
                        assert(rest[j - 1] == keys[j]);
                    }
                }
            },
            None => {
                if keys.contains(key) {
                    let k = keys.index_of(key);
                    assert(rest[k - 1] == key);
                }
            },
        }
    }
}

/// An entry can be toggled just where its profile is there and runs and its key stands in the
/// catalog; the first item of the key is meant.
pub proof fn lemma_toggle(
    kind: EntryKind,
    key: Seq<char>,
    profile_id: int,
    found: Result<bool, Seq<char>>,
    keys: Seq<Seq<char>>,
    has_client: bool,
)
    ensures
        ({
            let target = toggle_target(kind, key, profile_id, found, keys, has_client);
            &&& target is Ok <==> found == Ok::<bool, Seq<char>>(true) && keys.contains(key)
                && has_client
            &&& target is Ok ==> {
                let i = target->Ok_0;
                &&& 0 <= i < keys.len()
                &&& keys[i] == key
                &&& forall|j: int| 0 <= j < i ==> keys[j] != key
            }
            &&& found is Err ==> target == Err::<int, Seq<char>>(found->Err_0)
        }),
{
    lemma_item_with_key(keys, key);
}

/// What is done in a login is told with the name of its provider where that is known; a code that
/// is pasted here comes before one that is entered in the browser.
pub proof fn lemma_flow_operation(f: OAuthFlowInfo, name: Seq<char>)
    ensures
        f.method@ == "code"@ ==> flow_operation(f, Some(name)) == "Open the link above to connect "@
            + name + ", then paste the authorization code below."@ && flow_operation(f, None)
            == "Open the link above, then paste the authorization code below."@,
        f.method@ != "code"@ && f.device_code is Some ==> flow_operation(f, Some(name))
            == "Enter the code for "@ + name
            + " in your browser. OpenCode will finish login automatically."@ && flow_operation(
            f,
            None,
        ) == "Enter the code in your browser. OpenCode will finish login automatically."@,
        f.method@ != "code"@ && f.device_code is None ==> flow_operation(f, Some(name))
            == "Open the link above to connect "@ + name
            + ". Waiting for OpenCode to finish the OAuth callback..."@ && flow_operation(f, None)
            == "Open the link above. Waiting for OpenCode to finish the OAuth callback..."@,
{
}

/// A list of providers can be shown just where one came with something on it.
pub proof fn lemma_provider_list_problem(reply: ProviderListReply)
    ensures
        provider_list_problem(reply) is None <==> reply is Listed && reply->Listed_0 > 0,
        reply is Failed ==> provider_list_problem(reply) == Some(
            "Unable to load provider list: "@ + reply->Failed_0@,
        ),
{
}

/// A profile has an account where it has an address or a type that shows something.
pub proof fn lemma_has_account(p: ProfileRecord)
    ensures
        has_account(p) <==> {
            ||| p.last_email is Some && !is_blank(p.last_email->0@)
            ||| p.last_account_type is Some && !is_blank(p.last_account_type->0@)
        },
{
    if p.last_email is Some {
        lemma_trimmed_blank(p.last_email->0@);
    }
    if p.last_account_type is Some {
        lemma_trimmed_blank(p.last_account_type->0@);
    }
}

/// The page of a profile names its account; that of a runtime alone says that providers are on
/// their way, until there are some.
pub proof fn lemma_account_line(p: ProfileRecord, page: ProfilePage)
    ensures
        account_line(p, page) is None <==> page.runtime_only && !page.no_providers,
        !page.runtime_only ==> account_line(p, page) == Some(
            page.backend_name@ + " account: "@ + account_or_none(p),
        ),
        page.runtime_only && page.no_providers ==> account_line(p, page) == Some(
            "Providers with auth: loading..."@,
        ),
{
}

/// Nothing is said of a profile that runs and answers; what keeps it from that is said else, that
/// it does not run before anything.
pub proof fn lemma_popup_status(err: Seq<char>, error: Option<Seq<char>>)
    ensures
        popup_status(true, None) == ""@,
        popup_status(true, Some(err)) == "mcpServerStatus/list failed: "@ + err,
        popup_status(false, error)
            == "Profile is stopped. Open Settings to assign when profile is running."@,
{
}

/// A server is called by what can stand in a name of what it was called, without underscores at
/// the ends; where nothing is left, it has the name that every such server has.
pub proof fn lemma_name_left(input: Seq<char>)
    ensures
        is_blank(input) ==> server_name(input) == "mcp_server"@,
        is_tight(input) && name_chars(input).len() == 0 ==> server_name(input) == "mcp_server"@,
        input.len() > 0 && is_name(input) && input[0] != '_' && input.last() != '_' ==> server_name(
            input,
        ) == input,
{
    lemma_trimmed_blank(input);
    lemma_name_chars(input, 'a');
    if is_blank(input) {
        assert(trimmed(input) =~= seq![]);
        lemma_name_chars(seq![], 'a');
    }
    if input.len() > 0 && is_name(input) {
        assert(is_name_char(input[0]));
        assert(is_name_char(input[input.len() - 1]));
        assert(!is_space(input[0]) && !is_space(input[input.len() - 1]));
    }
}

} // verus!
