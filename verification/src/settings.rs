//! Application settings.
use crate::lines::equal_ignoring_case;
use crate::text::{owned, same};
use vstd::prelude::*;
#[allow(unused_imports)]
use crate::lines::ascii_lower;

verus! {

pub const SETTING_MULTIVIEW_ENABLED: &'static str = "multiview_enabled";

pub const SETTING_PANE_LAYOUT_V1: &'static str = "pane_layout_v1";

/// The settings as they were read from the store.
pub struct Settings {
    entries: Vec<(String, String)>,
}

/// The values under the keys of `entries`; the last entry of a key counts.
pub open spec fn settings_map(entries: Seq<(String, String)>) -> Map<Seq<char>, Seq<char>>
    decreases entries.len(),
{
    if entries.len() == 0 {
        Map::empty()
    } else {
        settings_map(entries.drop_last()).insert(entries.last().0@, entries.last().1@)
    }
}

impl View for Settings {
    type V = Map<Seq<char>, Seq<char>>;

    closed spec fn view(&self) -> Map<Seq<char>, Seq<char>> {
        settings_map(self.entries@)
    }
}

impl Settings {
    /// Settings with the given entries.
    pub fn from_entries(entries: Vec<(String, String)>) -> (s: Settings)
        ensures
            s@ == settings_map(entries@),
    {
        Settings { entries }
    }

    /// Sets the value under a key.
    pub fn set_setting(&mut self, key: &str, value: &str)
        ensures
            final(self)@ == old(self)@.insert(key@, value@),
    {
        self.entries.push((owned(key), owned(value)));
        assert(self.entries@.drop_last() =~= old(self).entries@);
    }

    /// The value under a key.
    pub fn get_setting(&self, key: &str) -> (r: Option<&str>)
        ensures
            match r {
                Some(value) => self@.contains_key(key@) && self@[key@] == value@,
                None => !self@.contains_key(key@),
            },
    {
        let mut i: usize = self.entries.len();
        assert(self.entries@.take(i as int) =~= self.entries@);
        while i > 0
            invariant
                i <= self.entries@.len(),
                self@.contains_key(key@) == settings_map(
                    self.entries@.take(i as int),
                ).contains_key(key@),
                self@.contains_key(key@) ==> self@[key@] == settings_map(
                    self.entries@.take(i as int),
                )[key@],
            decreases i,
        {
            assert(self.entries@.take(i as int).drop_last() =~= self.entries@.take(i - 1));
            if same(self.entries[i - 1].0.as_str(), key) {
                return Some(self.entries[i - 1].1.as_str());
            }
            i -= 1;
        }
        None
    }
}

/// Whether a stored text turns a setting on: `1`, or `true` in any case of its letters.
pub open spec fn is_on(raw: Seq<char>) -> bool {
    raw == "1"@ || ascii_lower(raw) == ascii_lower("true"@)
}

/// The setting under `key`, or `default` where there is none.
pub open spec fn switch_setting(
    settings: Map<Seq<char>, Seq<char>>,
    key: Seq<char>,
    default: bool,
) -> bool {
    if settings.contains_key(key) {
        is_on(settings[key])
    } else {
        default
    }
}

pub fn bool_setting(db: &Settings, key: &str, default: bool) -> (on: bool)
    ensures
        on == switch_setting(db@, key@, default),
{
    match db.get_setting(key) {
        Some(raw) => same(raw, "1") || equal_ignoring_case(raw, "true"),
        None => default,
    }
}

pub fn is_multiview_enabled(db: &Settings) -> (on: bool)
    ensures
        on == switch_setting(db@, "multiview_enabled"@, false),
{
    bool_setting(db, SETTING_MULTIVIEW_ENABLED, false)
}

pub open spec fn switch_text(on: bool) -> Seq<char> {
    if on {
        "1"@
    } else {
        "0"@
    }
}

/// The text under which a switch is stored.
pub fn bool_setting_text(on: bool) -> (raw: &'static str)
    ensures
        raw@ == switch_text(on),
{
    if on {
        "1"
    } else {
        "0"
    }
}

/// A switch that has been stored reads back as it was set, and the others stay as they were.
pub proof fn lemma_switch_round_trip(
    settings: Map<Seq<char>, Seq<char>>,
    key: Seq<char>,
    on: bool,
    other: Seq<char>,
    default: bool,
)
    ensures
        switch_setting(settings.insert(key, switch_text(on)), key, default) == on,
        other != key ==> switch_setting(settings.insert(key, switch_text(on)), other, default)
            == switch_setting(settings, other, default),
{
    broadcast use vstd::map::group_map_axioms;

    reveal_strlit("1");
    reveal_strlit("0");
    reveal_strlit("true");
    assert("1"@[0] == '1' && "0"@[0] == '0');
    assert(ascii_lower("0"@).len() == 1);
    assert(ascii_lower("true"@).len() == 4);
}

} // verus!
