//! Skills and MCP servers of a profile: names of servers, the entries of the popup, and what
//! switching an entry on or off asks for.
use crate::json::Json;
use crate::layout_store::is_visible;
use crate::lines::{ascii_lowercase, equal_ignoring_case, lists};
use crate::number::decimal_i64;
use crate::order::{stable_sort, Sortable};
use crate::text::{
    chars_of, concat, is_whitespace, lower_char, not_after, owned, same, text_of_range, trim,
};
use vstd::prelude::*;
#[allow(unused_imports)]
use crate::json::{tree, JsonTree};
#[allow(unused_imports)]
use crate::layout_store::text_of_option;
#[allow(unused_imports)]
use crate::lines::ascii_lower;
#[allow(unused_imports)]
use crate::number::signed_decimal;
#[allow(unused_imports)]
use crate::order::{
    is_sorted, lemma_stable_sorted, lemma_values_sorted, sorted_by, stable_sorted, values,
};
#[allow(unused_imports)]
use crate::text::{
    ascii_lower_char, is_space, lemma_text_le_total, lemma_text_le_transitive, str_option,
    text_le, trimmed, trimmed_end, trimmed_start,
};

verus! {

// ---------------------------------------------------------------------------------------------
// Names of servers
// ---------------------------------------------------------------------------------------------
/// Whether a character stands in the name of a server.
pub open spec fn is_name_char(c: char) -> bool {
    ('a' <= c && c <= 'z') || ('0' <= c && c <= '9') || c == '-' || c == '_'
}

/// What a character adds to the name of a server: itself in lower case, or an underscore for a
/// space or a dot that does not follow one.
pub open spec fn with_name_char(name: Seq<char>, c: char) -> Seq<char> {
    let lower = ascii_lower_char(c);
    if is_name_char(lower) {
        name.push(lower)
    } else if (is_space(lower) || lower == '.') && !(name.len() > 0 && name.last() == '_') {
        name.push('_')
    } else {
        name
    }
}

pub open spec fn name_chars(s: Seq<char>) -> Seq<char>
    decreases s.len(),
{
    if s.len() == 0 {
        Seq::empty()
    } else {
        with_name_char(name_chars(s.drop_last()), s.last())
    }
}

pub open spec fn without_first(s: Seq<char>, c: char) -> Seq<char>
    decreases s.len(),
{
    if s.len() > 0 && s.first() == c {
        without_first(s.drop_first(), c)
    } else {
        s
    }
}

pub open spec fn without_last(s: Seq<char>, c: char) -> Seq<char>
    decreases s.len(),
{
    if s.len() > 0 && s.last() == c {
        without_last(s.drop_last(), c)
    } else {
        s
    }
}

/// The name that a server is configured under.
pub open spec fn server_name(input: Seq<char>) -> Seq<char> {
    let name = without_last(without_first(name_chars(trimmed(input)), '_'), '_');
    if name.len() == 0 {
        "mcp_server"@
    } else {
        name
    }
}

fn name_char(c: char) -> (r: bool)
    ensures
        r == is_name_char(c),
{
    ('a' <= c && c <= 'z') || ('0' <= c && c <= '9') || c == '-' || c == '_'
}

pub fn normalize_mcp_server_name(input: &str) -> (name: String)
    ensures
        name@ == server_name(input@),
{
    let source = trim(input);
    let chars = chars_of(source.as_str());
    let mut out: Vec<char> = Vec::new();
    let mut i: usize = 0;
    assert(chars@.take(0) =~= Seq::empty());
    while i < chars.len()
        invariant
            i <= chars@.len(),
            out@ == name_chars(chars@.take(i as int)),
        decreases chars@.len() - i,
    {
        assert(chars@.take(i + 1).drop_last() =~= chars@.take(i as int));
        assert(chars@.take(i + 1).last() == chars@[i as int]);
        let lower = lower_char(chars[i]);
        if name_char(lower) {
            out.push(lower);
        } else if is_whitespace(lower) || lower == '.' {
            let follows = out.len() > 0 && out[out.len() - 1] == '_';
            if !follows {
                out.push('_');
            }
        }
        i = i + 1;
    }
    assert(chars@.take(i as int) =~= chars@);
    let ghost all = out@;
    let mut from: usize = 0;
    assert(all.skip(0) =~= all);
    while from < out.len() && out[from] == '_'
        invariant
            from <= out@.len(),
            out@ == all,
            without_first(all, '_') == without_first(all.skip(from as int), '_'),
        decreases out@.len() - from,
    {
        assert(all.skip(from as int).drop_first() =~= all.skip(from + 1));
        from = from + 1;
    }
    let ghost middle = all.skip(from as int);
    assert(without_first(all, '_') == middle);
    let mut to: usize = out.len();
    assert(all.subrange(from as int, to as int) =~= middle);
    while to > from && out[to - 1] == '_'
        invariant
            from <= to <= out@.len(),
            out@ == all,
            without_last(middle, '_') == without_last(
                all.subrange(from as int, to as int),
                '_',
            ),
        decreases to,
    {
        assert(all.subrange(from as int, to as int).last() == all[to - 1]);
        assert(all.subrange(from as int, to as int).drop_last() =~= all.subrange(
            from as int,
            to - 1,
        ));
        to = to - 1;
    }
    proof {
        let name = all.subrange(from as int, to as int);
        if name.len() > 0 {
            assert(name.last() == all[to - 1]);
        }
        assert(without_last(middle, '_') == name);
    }
    if from == to {
        owned("mcp_server")
    } else {
        text_of_range(&out, from, to)
    }
}

/// Whether a text consists of characters that stand in the names of servers.
pub open spec fn is_name(s: Seq<char>) -> bool {
    forall|i: int| 0 <= i < s.len() ==> is_name_char(#[trigger] s[i])
}

proof fn lemma_name_chars(s: Seq<char>)
    ensures
        is_name(name_chars(s)),
        is_name(s) ==> name_chars(s) == s,
    decreases s.len(),
{
    if s.len() > 0 {
        lemma_name_chars(s.drop_last());
        if is_name(s) {
            assert(is_name_char(s[s.len() - 1]));
            assert(is_name(s.drop_last())) by {
                assert forall|i: int| 0 <= i < s.len() - 1 implies is_name_char(
                    #[trigger] s.drop_last()[i],
                ) by {
                    assert(s.drop_last()[i] == s[i]);
                }
            }
            assert(ascii_lower_char(s.last()) == s.last());
            assert(s.drop_last().push(s.last()) =~= s);
        }
    } else {
        assert(name_chars(s) =~= s);
    }
}

proof fn lemma_without_ends(s: Seq<char>)
    requires
        is_name(s),
    ensures
        is_name(without_first(s, '_')),
        without_first(s, '_').len() > 0 ==> without_first(s, '_').first() != '_',
    decreases s.len(),
{
    if s.len() > 0 && s.first() == '_' {
        assert(is_name(s.drop_first())) by {
            assert forall|i: int| 0 <= i < s.len() - 1 implies is_name_char(
                #[trigger] s.drop_first()[i],
            ) by {
                assert(s.drop_first()[i] == s[i + 1]);
            }
        }
        lemma_without_ends(s.drop_first());
    }
}

proof fn lemma_without_end(s: Seq<char>)
    requires
        is_name(s),
    ensures
        is_name(without_last(s, '_')),
        without_last(s, '_').len() > 0 ==> without_last(s, '_').last() != '_'
            && without_last(s, '_').first() == s.first(),
    decreases s.len(),
{
    if s.len() > 0 && s.last() == '_' {
        assert(is_name(s.drop_last())) by {
            assert forall|i: int| 0 <= i < s.len() - 1 implies is_name_char(
                #[trigger] s.drop_last()[i],
            ) by {
                assert(s.drop_last()[i] == s[i]);
            }
        }
        lemma_without_end(s.drop_last());
    }
}

proof fn lemma_name_has_no_space(s: Seq<char>)
    requires
        is_name(s),
    ensures
        trimmed(s) == s,
{
    if s.len() > 0 {
        assert(is_name_char(s[0]));
        assert(is_name_char(s[s.len() - 1]));
    }
    assert(trimmed_start(s) == s);
    assert(trimmed_end(s) == s);
}

/// The name of a server is never empty, holds small letters, digits, hyphens and underscores only,
/// and neither starts nor ends with an underscore.
pub proof fn lemma_server_name(input: Seq<char>)
    ensures
        server_name(input).len() > 0,
        is_name(server_name(input)),
        server_name(input).first() != '_',
        server_name(input).last() != '_',
{
    let chars = name_chars(trimmed(input));
    lemma_name_chars(trimmed(input));
    lemma_without_ends(chars);
    lemma_without_end(without_first(chars, '_'));
    reveal_strlit("mcp_server");
    assert(is_name("mcp_server"@));
}

/// The name of a server is its own name.
pub proof fn lemma_server_name_idempotent(input: Seq<char>)
    ensures
        server_name(server_name(input)) == server_name(input),
{
    let name = server_name(input);
    lemma_server_name(input);
    lemma_name_has_no_space(name);
    lemma_name_chars(name);
    assert(without_first(name, '_') == name);
    assert(without_last(name, '_') == name);
}

// ---------------------------------------------------------------------------------------------
// Entries of the popup
// ---------------------------------------------------------------------------------------------
#[derive(Clone, Copy, Debug, PartialEq, Eq, Structural)]
pub enum EntryKind {
    Skill,
    Mcp,
}

/// One line of the popup.
#[derive(Debug)]
pub struct PopupEntry {
    pub kind: EntryKind,
    pub key: String,
    pub name: String,
    pub description: String,
    pub assigned: bool,
    pub auth_label: Option<String>,
    pub authenticated: Option<bool>,
}

/// A skill or a server of the catalog.
#[derive(Debug)]
pub struct CatalogItem {
    pub key: String,
    pub name: String,
    pub description: String,
}

/// What a running profile says of a server.
#[derive(Debug)]
pub struct McpServerInfo {
    pub name: String,
    pub auth_label: String,
    pub authenticated: bool,
}

#[verifier::ext_equal]
pub ghost struct EntryModel {
    pub kind: EntryKind,
    pub key: Seq<char>,
    pub name: Seq<char>,
    pub description: Seq<char>,
    pub assigned: bool,
    pub auth_label: Option<Seq<char>>,
    pub authenticated: Option<bool>,
}

impl PopupEntry {
    pub open spec fn model(self) -> EntryModel {
        EntryModel {
            kind: self.kind,
            key: self.key@,
            name: self.name@,
            description: self.description@,
            assigned: self.assigned,
            auth_label: text_of_option(self.auth_label),
            authenticated: self.authenticated,
        }
    }
}

pub open spec fn entry_models(entries: Seq<PopupEntry>) -> Seq<EntryModel> {
    Seq::new(entries.len(), |i: int| entries[i].model())
}

/// Skills come before servers, and each of them by name, whatever the case.
pub open spec fn entry_before(a: EntryModel, b: EntryModel) -> bool {
    match (a.kind, b.kind) {
        (EntryKind::Skill, EntryKind::Mcp) => true,
        (EntryKind::Mcp, EntryKind::Skill) => false,
        _ => text_le(ascii_lower(a.name), ascii_lower(b.name)),
    }
}

impl Sortable for PopupEntry {
    open spec fn before(a: PopupEntry, b: PopupEntry) -> bool {
        entry_before(a.model(), b.model())
    }

    proof fn total(a: PopupEntry, b: PopupEntry) {
        lemma_text_le_total(ascii_lower(a.name@), ascii_lower(b.name@));
    }

    proof fn transitive(a: PopupEntry, b: PopupEntry, c: PopupEntry) {
        if a.kind == b.kind && b.kind == c.kind {
            lemma_text_le_transitive(
                ascii_lower(a.name@),
                ascii_lower(b.name@),
                ascii_lower(c.name@),
            );
        }
    }

    fn is_before(a: &PopupEntry, b: &PopupEntry) -> (r: bool) {
        match (a.kind, b.kind) {
            (EntryKind::Skill, EntryKind::Mcp) => true,
            (EntryKind::Mcp, EntryKind::Skill) => false,
            _ => {
                let x = ascii_lowercase(a.name.as_str());
                let y = ascii_lowercase(b.name.as_str());
                not_after(x.as_str(), y.as_str())
            },
        }
    }
}

/// What is said of a server: what the last report under its name says.
pub open spec fn auth_of(statuses: Seq<McpServerInfo>, name: Seq<char>) -> (Seq<char>, bool)
    decreases statuses.len(),
{
    if statuses.len() == 0 {
        ("Unknown"@, false)
    } else if server_name(statuses.last().name@) == name {
        (statuses.last().auth_label@, statuses.last().authenticated)
    } else {
        auth_of(statuses.drop_last(), name)
    }
}

fn auth_for(statuses: &Vec<McpServerInfo>, name: &str) -> (r: (String, bool))
    ensures
        (r.0@, r.1) == auth_of(statuses@, name@),
{
    let mut i: usize = statuses.len();
    assert(statuses@.take(i as int) =~= statuses@);
    while i > 0
        invariant
            i <= statuses@.len(),
            auth_of(statuses@, name@) == auth_of(statuses@.take(i as int), name@),
        decreases i,
    {
        i = i - 1;
        assert(statuses@.take(i + 1).drop_last() =~= statuses@.take(i as int));
        assert(statuses@.take(i + 1).last() == statuses@[i as int]);
        let known = normalize_mcp_server_name(statuses[i].name.as_str());
        if same(known.as_str(), name) {
            return (owned(statuses[i].auth_label.as_str()), statuses[i].authenticated);
        }
    }
    (owned("Unknown"), false)
}

pub open spec fn skill_entry(item: CatalogItem, assigned: Seq<Seq<char>>) -> EntryModel {
    EntryModel {
        kind: EntryKind::Skill,
        key: item.key@,
        name: item.name@,
        description: item.description@,
        assigned: assigned.contains(item.key@),
        auth_label: None,
        authenticated: None,
    }
}

pub open spec fn mcp_entry(
    item: CatalogItem,
    assigned: Seq<Seq<char>>,
    statuses: Seq<McpServerInfo>,
) -> EntryModel {
    let auth = auth_of(statuses, server_name(item.name@));
    EntryModel {
        kind: EntryKind::Mcp,
        key: item.key@,
        name: item.name@,
        description: item.description@,
        assigned: assigned.contains(item.key@),
        auth_label: Some(auth.0),
        authenticated: Some(auth.1),
    }
}

/// The entries before they are put in order.
pub open spec fn unsorted_entries(
    skills: Seq<CatalogItem>,
    mcps: Seq<CatalogItem>,
    assigned_skills: Seq<Seq<char>>,
    assigned_mcps: Seq<Seq<char>>,
    statuses: Seq<McpServerInfo>,
) -> Seq<EntryModel> {
    Seq::new(skills.len(), |i: int| skill_entry(skills[i], assigned_skills)) + Seq::new(
        mcps.len(),
        |i: int| mcp_entry(mcps[i], assigned_mcps, statuses),
    )
}

pub open spec fn entry_order() -> spec_fn(EntryModel, EntryModel) -> bool {
    |a: EntryModel, b: EntryModel| entry_before(a, b)
}

/// The entries of the popup: every skill and every server of the catalog, in order.
pub fn build_entries(
    skills: &Vec<CatalogItem>,
    mcps: &Vec<CatalogItem>,
    assigned_skills: &Vec<String>,
    assigned_mcps: &Vec<String>,
    mcp_status: &Vec<McpServerInfo>,
) -> (out: Vec<PopupEntry>)
    ensures
        entry_models(out@) == sorted_by(
            entry_order(),
            unsorted_entries(
                skills@,
                mcps@,
                assigned_skills.deep_view(),
                assigned_mcps.deep_view(),
                mcp_status@,
            ),
        ),
        is_sorted(out@),
{
    let ghost all = unsorted_entries(
        skills@,
        mcps@,
        assigned_skills.deep_view(),
        assigned_mcps.deep_view(),
        mcp_status@,
    );
    let mut out: Vec<PopupEntry> = Vec::new();
    let mut i: usize = 0;
    while i < skills.len()
        invariant
            i <= skills@.len(),
            all == unsorted_entries(
                skills@,
                mcps@,
                assigned_skills.deep_view(),
                assigned_mcps.deep_view(),
                mcp_status@,
            ),
            entry_models(out@) =~= all.take(i as int),
        decreases skills@.len() - i,
    {
        let item = &skills[i];
        let ghost before = entry_models(out@);
        out.push(
            PopupEntry {
                kind: EntryKind::Skill,
                key: owned(item.key.as_str()),
                name: owned(item.name.as_str()),
                description: owned(item.description.as_str()),
                assigned: lists(assigned_skills, item.key.as_str()),
                auth_label: None,
                authenticated: None,
            },
        );
        assert(all[i as int] == skill_entry(skills@[i as int], assigned_skills.deep_view()));
        assert(entry_models(out@) =~= before.push(all[i as int]));
        i = i + 1;
    }
    let mut k: usize = 0;
    while k < mcps.len()
        invariant
            k <= mcps@.len(),
            all == unsorted_entries(
                skills@,
                mcps@,
                assigned_skills.deep_view(),
                assigned_mcps.deep_view(),
                mcp_status@,
            ),
            entry_models(out@) =~= all.take(skills@.len() + k),
        decreases mcps@.len() - k,
    {
        let item = &mcps[k];
        let ghost before = entry_models(out@);
        let name = normalize_mcp_server_name(item.name.as_str());
        let (label, authenticated) = auth_for(mcp_status, name.as_str());
        out.push(
            PopupEntry {
                kind: EntryKind::Mcp,
                key: owned(item.key.as_str()),
                name: owned(item.name.as_str()),
                description: owned(item.description.as_str()),
                assigned: lists(assigned_mcps, item.key.as_str()),
                auth_label: Some(label),
                authenticated: Some(authenticated),
            },
        );
        assert(all[skills@.len() + k] == mcp_entry(
            mcps@[k as int],
            assigned_mcps.deep_view(),
            mcp_status@,
        ));
        assert(entry_models(out@) =~= before.push(all[skills@.len() + k]));
        k = k + 1;
    }
    assert(entry_models(out@) =~= all);
    proof {
        let model = |e: PopupEntry| e.model();
        lemma_values_sorted(out@, model, entry_order());
        assert(values(out@, model) =~= entry_models(out@));
        assert(values(stable_sorted(out@), model) =~= entry_models(stable_sorted(out@)));
        lemma_stable_sorted(out@);
    }
    stable_sort(out)
}

/// Whether an entry offers to sign in to its server.
pub fn offers_auth(entry: &PopupEntry) -> (r: bool)
    ensures
        r == (entry.kind == EntryKind::Mcp && entry.assigned && entry.authenticated == Some(false)),
{
    let signed_out = match entry.authenticated {
        Some(known) => !known,
        None => false,
    };
    entry.kind == EntryKind::Mcp && entry.assigned && signed_out
}

/// Whether an entry has details to show.
pub fn has_details(entry: &PopupEntry) -> (r: bool)
    ensures
        r == (trimmed(entry.description@).len() > 0),
{
    is_visible(entry.description.as_str())
}

pub fn kind_label(kind: EntryKind) -> (label: &'static str)
    ensures
        label@ == (match kind {
            EntryKind::Skill => "Skill"@,
            EntryKind::Mcp => "MCP"@,
        }),
{
    match kind {
        EntryKind::Skill => "Skill",
        EntryKind::Mcp => "MCP",
    }
}

// ---------------------------------------------------------------------------------------------
// The profile of the popup
// ---------------------------------------------------------------------------------------------
/// The name of the profile that the popup is for.
pub fn popup_profile_name(profile_id: i64, name: Option<&str>) -> (r: String)
    ensures
        r@ == (match name {
            Some(n) => n@,
            None => "Profile #"@ + signed_decimal(profile_id as int),
        }),
{
    match name {
        Some(n) => owned(n),
        None => concat("Profile #", decimal_i64(profile_id).as_str()),
    }
}

pub open spec fn says_running(status: Seq<char>) -> bool {
    ascii_lower(status) == ascii_lower("running"@)
}

/// Whether a profile runs, from its stored status.
pub fn profile_is_running(status: Option<&str>) -> (r: bool)
    ensures
        r == (status matches Some(s) && says_running(s@)),
{
    match status {
        Some(s) => equal_ignoring_case(s, "running"),
        None => false,
    }
}

/// What the popup says below its list.
pub open spec fn popup_status(running: bool, status_error: Option<Seq<char>>) -> Seq<char> {
    if !running {
        "Profile is stopped. Open Settings to assign when profile is running."@
    } else {
        match status_error {
            Some(err) => "mcpServerStatus/list failed: "@ + err,
            None => ""@,
        }
    }
}

pub fn popup_status_text(running: bool, status_error: Option<&str>) -> (r: String)
    ensures
        r@ == popup_status(running, str_option(status_error)),
{
    if !running {
        owned("Profile is stopped. Open Settings to assign when profile is running.")
    } else {
        match status_error {
            Some(err) => concat("mcpServerStatus/list failed: ", err),
            None => owned(""),
        }
    }
}

// ---------------------------------------------------------------------------------------------
// Switching an entry on or off
// ---------------------------------------------------------------------------------------------
/// The index of the item with a key.
pub open spec fn item_with_key(keys: Seq<Seq<char>>, key: Seq<char>) -> Option<int>
    decreases keys.len(),
{
    if keys.len() == 0 {
        None
    } else if keys.first() == key {
        Some(0)
    } else {
        match item_with_key(keys.drop_first(), key) {
            Some(i) => Some(i + 1),
            None => None,
        }
    }
}

fn find_key(keys: &Vec<String>, key: &str) -> (r: Option<usize>)
    ensures
        match r {
            Some(i) => item_with_key(keys.deep_view(), key@) == Some(i as int) && i < keys@.len(),
            None => item_with_key(keys.deep_view(), key@) is None,
        },
{
    let ghost all = keys.deep_view();
    let mut i: usize = 0;
    assert(all.skip(0) =~= all);
    while i < keys.len()
        invariant
            i <= keys@.len(),
            all == keys.deep_view(),
            item_with_key(all, key@) == (match item_with_key(all.skip(i as int), key@) {
                Some(k) => Some(k + i),
                None => None,
            }),
        decreases keys@.len() - i,
    {
        assert(all.skip(i as int).first() == keys@[i as int]@);
        assert(all.skip(i as int).drop_first() =~= all.skip(i + 1));
        if same(keys[i].as_str(), key) {
            return Some(i);
        }
        i = i + 1;
    }
    assert(all.skip(i as int).len() == 0);
    None
}

/// What is asked of the profile once the assignment was stored, or why nothing is.
///
/// The stored profile is there or not, or could not be read.
pub open spec fn toggle_target(
    kind: EntryKind,
    key: Seq<char>,
    profile_id: int,
    profile_found: Result<bool, Seq<char>>,
    catalog_keys: Seq<Seq<char>>,
    has_client: bool,
) -> Result<int, Seq<char>> {
    match profile_found {
        Err(err) => Err(err),
        Ok(false) => Err("profile "@ + signed_decimal(profile_id) + " not found"@),
        Ok(true) => match item_with_key(catalog_keys, key) {
            None => Err(
                (match kind {
                    EntryKind::Skill => "skill not found in catalog: "@,
                    EntryKind::Mcp => "mcp not found in catalog: "@,
                }) + key,
            ),
            Some(i) => if has_client {
                Ok(i)
            } else {
                Err("Profile app-server is not running."@)
            },
        },
    }
}

/// The item of the catalog that is switched on or off for a profile.
pub fn toggled_item(
    kind: EntryKind,
    key: &str,
    profile_id: i64,
    profile_found: &Result<bool, String>,
    catalog_keys: &Vec<String>,
    has_client: bool,
) -> (r: Result<usize, String>)
    ensures
        match r {
            Ok(i) => i < catalog_keys@.len() && toggle_target(
                kind,
                key@,
                profile_id as int,
                match *profile_found {
                    Ok(b) => Ok(b),
                    Err(e) => Err(e@),
                },
                catalog_keys.deep_view(),
                has_client,
            ) == Ok::<int, Seq<char>>(i as int),
            Err(err) => toggle_target(
                kind,
                key@,
                profile_id as int,
                match *profile_found {
                    Ok(b) => Ok(b),
                    Err(e) => Err(e@),
                },
                catalog_keys.deep_view(),
                has_client,
            ) == Err::<int, Seq<char>>(err@),
        },
{
    match profile_found {
        Err(err) => Err(owned(err.as_str())),
        Ok(found) => {
            if !*found {
                return Err(
                    crate::text::concat3(
                        "profile ",
                        decimal_i64(profile_id).as_str(),
                        " not found",
                    ),
                );
            }
            match find_key(catalog_keys, key) {
                None => match kind {
                    EntryKind::Skill => Err(concat("skill not found in catalog: ", key)),
                    EntryKind::Mcp => Err(concat("mcp not found in catalog: ", key)),
                },
                Some(i) => if has_client {
                    Ok(i)
                } else {
                    Err(owned("Profile app-server is not running."))
                },
            }
        },
    }
}

/// A change of one value in the configuration of a profile.
pub struct ConfigWrite {
    pub key_path: String,
    pub value: Json,
    /// How the value goes in: `upsert` or `replace`.
    pub merge: String,
}

/// The change that switches a server on or off: its configuration is put in, or replaced by null.
pub fn mcp_config_write(name: &str, config: Json, enabled: bool) -> (w: ConfigWrite)
    ensures
        w.key_path@ == "mcp_servers."@ + server_name(name@),
        tree(w.value) == (if enabled {
            tree(config)
        } else {
            JsonTree::Null
        }),
        w.merge@ == (if enabled {
            "upsert"@
        } else {
            "replace"@
        }),
{
    let server = normalize_mcp_server_name(name);
    let key_path = concat("mcp_servers.", server.as_str());
    if enabled {
        ConfigWrite { key_path, value: config, merge: owned("upsert") }
    } else {
        ConfigWrite { key_path, value: Json::Null, merge: owned("replace") }
    }
}

/// What is said of a switch, and whether the entry stands as it was set; a switch that failed goes
/// back.
pub fn toggle_result(result: &Result<(), String>, enabled: bool) -> (r: (String, bool))
    ensures
        match *result {
            Ok(_) => r.0@ == "Assignment updated."@ && r.1 == enabled,
            Err(err) => r.0@ == "Toggle failed: "@ + err@ && r.1 == !enabled,
        },
{
    match result {
        Ok(_) => (owned("Assignment updated."), enabled),
        Err(err) => (concat("Toggle failed: ", err.as_str()), !enabled),
    }
}

/// What is said once signing in to a server was started.
pub fn oauth_result(result: &Result<String, String>) -> (r: String)
    ensures
        match *result {
            Ok(_) => r@
                == "OAuth URL copied to clipboard. Complete login, then refresh."@,
            Err(err) => r@ == "MCP OAuth failed: "@ + err@,
        },
{
    match result {
        Ok(_) => owned("OAuth URL copied to clipboard. Complete login, then refresh."),
        Err(err) => concat("MCP OAuth failed: ", err.as_str()),
    }
}

} // verus!
