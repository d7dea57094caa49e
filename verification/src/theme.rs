//! The theme: its colours as hexadecimal texts, the presets, and what is stored of it.
use crate::lines::{
    ascii_lowercase, byte_total, count_within, equal_ignoring_case, strip_leading,
};
use crate::settings::Settings;
use crate::text::{chars_of, concat, owned, same, starts_with, text_of_range, trim};
use vstd::prelude::*;
#[allow(unused_imports)]
use crate::lines::{
    ascii_lower, byte_len, chars_within, is_boundary, lemma_chars_within, without_leading,
};
#[allow(unused_imports)]
use crate::text::{starts_with_text, trimmed, trimmed_end, trimmed_start, utf8_width};

verus! {

// ---------------------------------------------------------------------------------------------
// Hexadecimal colours
// ---------------------------------------------------------------------------------------------
/// The value of a hexadecimal digit.
pub open spec fn hex_digit(c: char) -> Option<nat> {
    if '0' <= c && c <= '9' {
        Some((c as int - '0' as int) as nat)
    } else if 'a' <= c && c <= 'f' {
        Some((c as int - 'a' as int + 10) as nat)
    } else if 'A' <= c && c <= 'F' {
        Some((c as int - 'A' as int + 10) as nat)
    } else {
        None
    }
}

/// The value of a text of hexadecimal digits.
pub open spec fn hex_digits(s: Seq<char>) -> Option<nat>
    decreases s.len(),
{
    if s.len() == 0 {
        Some(0)
    } else {
        match (hex_digits(s.drop_last()), hex_digit(s.last())) {
            (Some(high), Some(low)) => Some(high * 16 + low),
            _ => None,
        }
    }
}

/// The value of a hexadecimal number, which may have a plus sign.
pub open spec fn hex_number(s: Seq<char>) -> Option<nat> {
    let digits = if s.len() > 0 && s[0] == '+' {
        s.drop_first()
    } else {
        s
    };
    if digits.len() == 0 {
        None
    } else {
        hex_digits(digits)
    }
}

/// A colour without spaces around it and without the hash signs in front.
pub open spec fn bare_hex(s: Seq<char>) -> Seq<char> {
    without_leading(trimmed(s), '#')
}

/// The three parts of a colour text of six characters.
pub open spec fn hex_parts(s: Seq<char>) -> Option<(nat, nat, nat)> {
    match (
        hex_number(s.subrange(0, 2)),
        hex_number(s.subrange(2, 4)),
        hex_number(s.subrange(4, 6)),
    ) {
        (Some(r), Some(g), Some(b)) => Some((r, g, b)),
        _ => None,
    }
}

/// The red, green and blue of a colour text.
pub open spec fn hex_color(s: Seq<char>) -> Option<(nat, nat, nat)> {
    let bare = bare_hex(s);
    if byte_len(bare) == 6 && bare.len() == 6 {
        hex_parts(bare)
    } else {
        None
    }
}

/// Whether a colour text can be taken apart: where it has six bytes, the first two of them are
/// whole characters, and so are the next two where the first two are a number.
pub open spec fn comes_apart(s: Seq<char>) -> bool {
    let bare = bare_hex(s);
    byte_len(bare) == 6 ==> is_boundary(bare, 2) && (hex_number(
        bare.take(chars_within(bare, 2) as int),
    ) is Some ==> is_boundary(bare, 4))
}

fn digit_of(c: char) -> (r: Option<u32>)
    ensures
        match r {
            Some(v) => hex_digit(c) == Some(v as nat) && v < 16,
            None => hex_digit(c) is None,
        },
{
    if '0' <= c && c <= '9' {
        Some(c as u32 - 48)
    } else if 'a' <= c && c <= 'f' {
        Some(c as u32 - 87)
    } else if 'A' <= c && c <= 'F' {
        Some(c as u32 - 55)
    } else {
        None
    }
}

/// The number in `chars` from `from` to `to`, of eight digits at most.
fn number_in(chars: &Vec<char>, from: usize, to: usize) -> (r: Option<u64>)
    requires
        from <= to <= chars@.len(),
        to - from <= 8,
    ensures
        match r {
            Some(v) => hex_number(chars@.subrange(from as int, to as int)) == Some(v as nat),
            None => hex_number(chars@.subrange(from as int, to as int)) is None,
        },
{
    let ghost s = chars@.subrange(from as int, to as int);
    let start: usize = if from < to && chars[from] == '+' {
        from + 1
    } else {
        from
    };
    let ghost digits = chars@.subrange(start as int, to as int);
    assert(s.len() > 0 ==> s[0] == chars@[from as int]);
    assert(digits =~= (if s.len() > 0 && s[0] == '+' {
        s.drop_first()
    } else {
        s
    }));
    if start == to {
        return None;
    }
    let mut value: u64 = 0;
    let mut i: usize = start;
    assert(chars@.subrange(start as int, start as int) =~= Seq::empty());
    while i < to
        invariant
            start <= i <= to,
            to <= chars@.len(),
            to - start <= 8,
            digits == chars@.subrange(start as int, to as int),
            hex_number(chars@.subrange(from as int, to as int)) == hex_digits(digits),
            hex_digits(chars@.subrange(start as int, i as int)) == Some(value as nat),
            i - start == 0 ==> value == 0,
            i - start == 1 ==> value < 0x10,
            i - start == 2 ==> value < 0x100,
            i - start == 3 ==> value < 0x1000,
            i - start == 4 ==> value < 0x1_0000,
            i - start == 5 ==> value < 0x10_0000,
            i - start == 6 ==> value < 0x100_0000,
            i - start == 7 ==> value < 0x1000_0000,
            i - start == 8 ==> value < 0x1_0000_0000,
        decreases to - i,
    {
        let ghost so_far = chars@.subrange(start as int, i + 1);
        assert(so_far.drop_last() =~= chars@.subrange(start as int, i as int));
        assert(so_far.last() == chars@[i as int]);
        match digit_of(chars[i]) {
            Some(d) => {
                value = value * 16 + d as u64;
            },
            None => {
                assert(hex_digits(so_far) is None);
                proof {
                    lemma_hex_digits_prefix(digits, i + 1 - start);
                    assert(digits.take(i + 1 - start) =~= so_far);
                }
                return None;
            },
        }
        i = i + 1;
    }
    Some(value)
}

proof fn lemma_hex_digits_prefix(s: Seq<char>, k: int)
    requires
        0 <= k <= s.len(),
        hex_digits(s.take(k)) is None,
    ensures
        hex_digits(s) is None,
    decreases s.len() - k,
{
    if k < s.len() {
        assert(s.take(k + 1).drop_last() =~= s.take(k));
        lemma_hex_digits_prefix(s, k + 1);
    } else {
        assert(s.take(k) =~= s);
    }
}

/// Whether a colour text can be taken apart.
pub fn hex_comes_apart(hex: &str) -> (r: bool)
    ensures
        r == comes_apart(hex@),
{
    let bare = strip_leading(trim(hex).as_str(), '#');
    let chars = chars_of(bare.as_str());
    if byte_total(&chars) != 6 {
        return true;
    }
    proof {
        lemma_chars_within(chars@, 2);
        lemma_chars_within(chars@, 4);
    }
    let two = count_within(&chars, 2);
    let head = text_of_range(&chars, 0, two);
    assert(head@ =~= chars@.take(two as int));
    let head_chars = chars_of(head.as_str());
    if byte_total(&head_chars) != 2 {
        return false;
    }
    proof {
        lemma_chars_within(head@, 2);
    }
    assert(head_chars@.subrange(0, two as int) =~= head@);
    if number_in(&head_chars, 0, two).is_none() {
        return true;
    }
    let four = count_within(&chars, 4);
    let front = text_of_range(&chars, 0, four);
    assert(front@ =~= chars@.take(four as int));
    byte_total(&chars_of(front.as_str())) == 4
}

/// The red, green and blue of a colour text.
pub fn parse_hex_color(hex: &str) -> (r: Option<(u8, u8, u8)>)
    requires
        comes_apart(hex@),
    ensures
        match r {
            Some(c) => hex_color(hex@) == Some((c.0 as nat, c.1 as nat, c.2 as nat)),
            None => hex_color(hex@) is None,
        },
{
    let bare = strip_leading(trim(hex).as_str(), '#');
    let chars = chars_of(bare.as_str());
    if byte_total(&chars) != 6 || chars.len() != 6 {
        return None;
    }
    proof {
        lemma_two_digits(chars@.subrange(0, 2));
        lemma_two_digits(chars@.subrange(2, 4));
        lemma_two_digits(chars@.subrange(4, 6));
    }
    match (number_in(&chars, 0, 2), number_in(&chars, 2, 4), number_in(&chars, 4, 6)) {
        (Some(red), Some(green), Some(blue)) => Some((red as u8, green as u8, blue as u8)),
        _ => None,
    }
}

proof fn lemma_two_digits(s: Seq<char>)
    requires
        s.len() == 2,
    ensures
        hex_number(s) is Some ==> hex_number(s)->0 < 256,
{
    reveal_with_fuel(hex_digits, 3);
}

// ---------------------------------------------------------------------------------------------
// Writing colours
// ---------------------------------------------------------------------------------------------
pub open spec fn hex_char(d: nat) -> char {
    if d < 10 {
        (('0' as int) + d) as char
    } else {
        (('a' as int) + d - 10) as char
    }
}

pub open spec fn hex_pair(v: nat) -> Seq<char> {
    seq![hex_char(v / 16), hex_char(v % 16)]
}

/// A colour as a hash sign and six digits.
pub open spec fn color_text(r: nat, g: nat, b: nat) -> Seq<char> {
    seq!['#'] + hex_pair(r) + hex_pair(g) + hex_pair(b)
}

fn char_of_digit(d: u8) -> (c: char)
    requires
        d < 16,
    ensures
        c == hex_char(d as nat),
{
    if d < 10 {
        (48 + d) as char
    } else {
        (87 + d) as char
    }
}

pub fn hex_text(red: u8, green: u8, blue: u8) -> (text: String)
    ensures
        text@ == color_text(red as nat, green as nat, blue as nat),
{
    let mut text = String::new();
    text.push('#');
    text.push(char_of_digit(red / 16));
    text.push(char_of_digit(red % 16));
    text.push(char_of_digit(green / 16));
    text.push(char_of_digit(green % 16));
    text.push(char_of_digit(blue / 16));
    text.push(char_of_digit(blue % 16));
    assert(text@ =~= color_text(red as nat, green as nat, blue as nat));
    text
}

proof fn lemma_hex_pair(v: nat)
    requires
        v < 256,
    ensures
        hex_pair(v).len() == 2,
        hex_number(hex_pair(v)) == Some(v),
        hex_pair(v)[0] != '#',
        hex_pair(v)[0] != '+',
        forall|i: int| 0 <= i < 2 ==> utf8_width(#[trigger] hex_pair(v)[i]) == 1,
        forall|i: int| 0 <= i < 2 ==> !crate::text::is_space(#[trigger] hex_pair(v)[i]),
{
    let s = hex_pair(v);
    assert(hex_digit(hex_char(v / 16)) == Some(v / 16));
    assert(hex_digit(hex_char(v % 16)) == Some(v % 16));
    assert(s.drop_last() =~= seq![hex_char(v / 16)]);
    assert(s.drop_last().drop_last() =~= Seq::empty());
    reveal_with_fuel(hex_digits, 3);
}

proof fn lemma_byte_len_of_narrow(s: Seq<char>)
    requires
        forall|i: int| 0 <= i < s.len() ==> utf8_width(#[trigger] s[i]) == 1,
    ensures
        byte_len(s) == s.len(),
    decreases s.len(),
{
    if s.len() > 0 {
        assert(utf8_width(s[0]) == 1);
        let rest = s.drop_first();
        assert forall|i: int| 0 <= i < rest.len() implies utf8_width(#[trigger] rest[i]) == 1 by {
            assert(rest[i] == s[i + 1]);
        }
        lemma_byte_len_of_narrow(rest);
    }
}

/// Reading a colour back from its text gives the colour.
pub proof fn lemma_color_round_trip(r: u8, g: u8, b: u8)
    ensures
        hex_color(color_text(r as nat, g as nat, b as nat)) == Some((r as nat, g as nat, b as nat)),
{
    let text = color_text(r as nat, g as nat, b as nat);
    lemma_hex_pair(r as nat);
    lemma_hex_pair(g as nat);
    lemma_hex_pair(b as nat);
    let digits = hex_pair(r as nat) + hex_pair(g as nat) + hex_pair(b as nat);
    assert(text.len() == 7);
    assert(text[0] == '#');
    assert(text[6] == hex_pair(b as nat)[1]);
    assert(trimmed_start(text) == text);
    assert(trimmed_end(text) == text);
    assert(text.drop_first() =~= digits);
    assert(digits[0] == hex_pair(r as nat)[0]);
    assert(without_leading(digits, '#') == digits);
    assert(bare_hex(text) == digits);
    assert forall|i: int| 0 <= i < digits.len() implies utf8_width(#[trigger] digits[i]) == 1 by {
        if i < 2 {
            assert(digits[i] == hex_pair(r as nat)[i]);
        } else if i < 4 {
            assert(digits[i] == hex_pair(g as nat)[i - 2]);
        } else {
            assert(digits[i] == hex_pair(b as nat)[i - 4]);
        }
    }
    lemma_byte_len_of_narrow(digits);
    assert(digits.subrange(0, 2) =~= hex_pair(r as nat));
    assert(digits.subrange(2, 4) =~= hex_pair(g as nat));
    assert(digits.subrange(4, 6) =~= hex_pair(b as nat));
}

// ---------------------------------------------------------------------------------------------
// Presets
// ---------------------------------------------------------------------------------------------
pub const PRESET_COUNT: usize = 6;

/// A preset: its name in the settings, what it is called, and its colour.
pub open spec fn preset(i: int) -> (Seq<char>, Seq<char>, Seq<char>) {
    if i == 0 {
        ("default"@, "Default"@, "#181616"@)
    } else if i == 1 {
        ("blue"@, "Blue"@, "#1e3a5f"@)
    } else if i == 2 {
        ("purple"@, "Purple"@, "#3a2a4f"@)
    } else if i == 3 {
        ("green"@, "Green"@, "#2a3f2a"@)
    } else if i == 4 {
        ("red"@, "Red"@, "#4f2a2a"@)
    } else {
        ("orange"@, "Orange"@, "#4f3a2a"@)
    }
}

pub fn base_preset_color(i: usize) -> (r: (&'static str, &'static str, &'static str))
    requires
        i < PRESET_COUNT,
    ensures
        (r.0@, r.1@, r.2@) == preset(i as int),
{
    if i == 0 {
        ("default", "Default", "#181616")
    } else if i == 1 {
        ("blue", "Blue", "#1e3a5f")
    } else if i == 2 {
        ("purple", "Purple", "#3a2a4f")
    } else if i == 3 {
        ("green", "Green", "#2a3f2a")
    } else if i == 4 {
        ("red", "Red", "#4f2a2a")
    } else {
        ("orange", "Orange", "#4f3a2a")
    }
}

/// The first preset from `from` on with a name.
pub open spec fn preset_named(name: Seq<char>, from: int) -> Option<int>
    decreases PRESET_COUNT - from,
{
    if from < 0 || from >= PRESET_COUNT {
        None
    } else if preset(from).0 == name {
        Some(from)
    } else {
        preset_named(name, from + 1)
    }
}

fn find_preset(name: &str) -> (r: Option<usize>)
    ensures
        match r {
            Some(i) => preset_named(name@, 0) == Some(i as int) && i < PRESET_COUNT,
            None => preset_named(name@, 0) is None,
        },
{
    let mut i: usize = 0;
    while i < PRESET_COUNT
        invariant
            i <= PRESET_COUNT,
            preset_named(name@, 0) == preset_named(name@, i as int),
        decreases PRESET_COUNT - i,
    {
        if same(base_preset_color(i).0, name) {
            return Some(i);
        }
        i = i + 1;
    }
    None
}

/// The colour that a stored text stands for: itself where it is a hash sign and six bytes, else
/// that of the preset it names, else that of the first preset.
pub open spec fn theme_hex(raw: Seq<char>) -> Seq<char> {
    if starts_with_text(raw, "#"@) && byte_len(raw) == 7 {
        raw
    } else {
        named_hex(raw)
    }
}

pub open spec fn named_hex(raw: Seq<char>) -> Seq<char> {
    match preset_named(raw, 0) {
        Some(i) => preset(i).2,
        None => "#181616"@,
    }
}

fn hex_of_name(raw: &str) -> (hex: String)
    ensures
        hex@ == named_hex(raw@),
{
    match find_preset(raw) {
        Some(i) => owned(base_preset_color(i).2),
        None => owned("#181616"),
    }
}

pub fn resolved_theme_hex(raw: &str) -> (hex: String)
    ensures
        hex@ == theme_hex(raw@),
{
    if starts_with(raw, "#") && byte_total(&chars_of(raw)) == 7 {
        owned(raw)
    } else {
        hex_of_name(raw)
    }
}

/// The colour of the window: a stored text with a hash sign in front as it is, else what it names.
pub open spec fn window_color(raw: Seq<char>) -> Seq<char> {
    if starts_with_text(raw, "#"@) {
        raw
    } else {
        named_hex(raw)
    }
}

pub fn base_theme_color(color: &str) -> (hex: String)
    ensures
        hex@ == window_color(color@),
{
    if starts_with(color, "#") {
        owned(color)
    } else {
        hex_of_name(color)
    }
}

/// Whether a preset is the stored colour, by its name or by its colour.
pub open spec fn is_preset(i: int, color: Seq<char>) -> bool {
    ascii_lower(color) == preset(i).0 || ascii_lower(color) == ascii_lower(preset(i).2)
}

pub fn preset_is_selected(i: usize, color: &str) -> (r: bool)
    requires
        i < PRESET_COUNT,
    ensures
        r == is_preset(i as int, color@),
{
    let current = ascii_lowercase(color);
    let (id, _, hex) = base_preset_color(i);
    same(current.as_str(), id) || same(current.as_str(), ascii_lowercase(hex).as_str())
}

/// Whether the stored colour was chosen on the wheel: it is a colour, and no preset.
pub open spec fn from_wheel(color: Seq<char>) -> bool {
    starts_with_text(ascii_lower(color), "#"@) && forall|i: int|
        0 <= i < PRESET_COUNT ==> !#[trigger] is_preset(i, color)
}

pub fn wheel_is_selected(color: &str) -> (r: bool)
    ensures
        r == from_wheel(color@),
{
    let mut i: usize = 0;
    while i < PRESET_COUNT
        invariant
            i <= PRESET_COUNT,
            forall|k: int| 0 <= k < i ==> !#[trigger] is_preset(k, color@),
        decreases PRESET_COUNT - i,
    {
        if preset_is_selected(i, color) {
            assert(is_preset(i as int, color@));
            return false;
        }
        i = i + 1;
    }
    starts_with(ascii_lowercase(color).as_str(), "#")
}

// ---------------------------------------------------------------------------------------------
// The stored theme
// ---------------------------------------------------------------------------------------------
/// The theme, but for the intensity of the texture.
#[derive(Debug)]
pub struct ThemeConfig {
    pub color: String,
    pub accent_auto: bool,
    pub accent_color: String,
    pub texture: String,
}

#[verifier::ext_equal]
pub ghost struct ThemeModel {
    pub color: Seq<char>,
    pub accent_auto: bool,
    pub accent_color: Seq<char>,
    pub texture: Seq<char>,
}

pub open spec fn default_accent() -> Seq<char> {
    "#519a95"@
}

pub fn default_manual_accent_color() -> (color: String)
    ensures
        color@ == default_accent(),
{
    owned("#519a95")
}

impl Default for ThemeConfig {
    fn default() -> (c: ThemeConfig)
        ensures
            c.model() == (ThemeModel {
                color: "default"@,
                accent_auto: false,
                accent_color: default_accent(),
                texture: "none"@,
            }),
    {
        ThemeConfig {
            color: owned("default"),
            accent_auto: false,
            accent_color: default_manual_accent_color(),
            texture: owned("none"),
        }
    }
}

impl ThemeConfig {
    pub open spec fn model(self) -> ThemeModel {
        ThemeModel {
            color: self.color@,
            accent_auto: self.accent_auto,
            accent_color: self.accent_color@,
            texture: self.texture@,
        }
    }
}

pub open spec fn value_of(settings: Map<Seq<char>, Seq<char>>, key: Seq<char>) -> Option<Seq<char>> {
    if settings.contains_key(key) {
        Some(settings[key])
    } else {
        None
    }
}

pub open spec fn stored_color(raw: Option<Seq<char>>) -> Seq<char> {
    match raw {
        Some(text) => if ascii_lower(trimmed(text)) == ascii_lower("system"@) {
            "default"@
        } else {
            text
        },
        None => "default"@,
    }
}

pub open spec fn stored_auto(raw: Option<Seq<char>>) -> bool {
    match raw {
        Some(text) => {
            let lower = ascii_lower(trimmed(text));
            !(lower == "0"@ || lower == "false"@ || lower == "off"@)
        },
        None => false,
    }
}

/// The preset that an old setting of the accent names.
pub open spec fn old_accent_preset(raw: Seq<char>) -> Option<int> {
    let lower = ascii_lower(trimmed(raw));
    if starts_with_text(lower, "#"@) {
        None
    } else {
        preset_named(lower, 0)
    }
}

/// The accent: an old setting names a preset, whose accent is one of `accents`.
pub open spec fn stored_accent(raw: Option<Seq<char>>, accents: Seq<Seq<char>>) -> Seq<char> {
    match raw {
        Some(text) => match old_accent_preset(text) {
            Some(i) => accents[i],
            None => text,
        },
        None => default_accent(),
    }
}

pub open spec fn stored_theme(
    settings: Map<Seq<char>, Seq<char>>,
    accents: Seq<Seq<char>>,
) -> ThemeModel {
    ThemeModel {
        color: stored_color(value_of(settings, "theme_color"@)),
        accent_auto: stored_auto(value_of(settings, "theme_accent_auto"@)),
        accent_color: stored_accent(value_of(settings, "theme_accent_color"@), accents),
        texture: match value_of(settings, "theme_texture"@) {
            Some(text) => text,
            None => "none"@,
        },
    }
}

/// The preset that an old setting of the accent names.
pub fn legacy_accent_preset(raw: &str) -> (r: Option<usize>)
    ensures
        match r {
            Some(i) => old_accent_preset(raw@) == Some(i as int) && i < PRESET_COUNT,
            None => old_accent_preset(raw@) is None,
        },
{
    let lower = ascii_lowercase(trim(raw).as_str());
    if starts_with(lower.as_str(), "#") {
        None
    } else {
        find_preset(lower.as_str())
    }
}

/// The theme as it is stored, given the accents of the presets.
pub fn load_theme_config(db: &Settings, preset_accents: &Vec<String>) -> (c: ThemeConfig)
    requires
        preset_accents@.len() == PRESET_COUNT,
    ensures
        c.model() == stored_theme(db@, preset_accents.deep_view()),
{
    let color = match db.get_setting("theme_color") {
        Some(raw) => if equal_ignoring_case(trim(raw).as_str(), "system") {
            owned("default")
        } else {
            owned(raw)
        },
        None => owned("default"),
    };
    let accent_auto = match db.get_setting("theme_accent_auto") {
        Some(raw) => {
            let lower = ascii_lowercase(trim(raw).as_str());
            let text = lower.as_str();
            !(same(text, "0") || same(text, "false") || same(text, "off"))
        },
        None => false,
    };
    let accent_color = match db.get_setting("theme_accent_color") {
        Some(raw) => match legacy_accent_preset(raw) {
            Some(i) => {
                assert(preset_accents.deep_view()[i as int] == preset_accents@[i as int]@);
                owned(preset_accents[i].as_str())
            },
            None => owned(raw),
        },
        None => default_manual_accent_color(),
    };
    let texture = match db.get_setting("theme_texture") {
        Some(raw) => owned(raw),
        None => owned("none"),
    };
    ThemeConfig { color, accent_auto, accent_color, texture }
}

/// What the wheel is used for.
#[derive(Clone, Copy, Debug, PartialEq, Eq, Structural)]
pub enum WheelTarget {
    Base,
    Accent,
}

/// The colour that the wheel starts from.
pub fn wheel_start(config: &ThemeConfig, target: WheelTarget) -> (hex: String)
    ensures
        hex@ == theme_hex(
            match target {
                WheelTarget::Base => config.color@,
                WheelTarget::Accent => config.accent_color@,
            },
        ),
{
    match target {
        WheelTarget::Base => resolved_theme_hex(config.color.as_str()),
        WheelTarget::Accent => resolved_theme_hex(config.accent_color.as_str()),
    }
}

/// A colour from the wheel as it is stored; none where it is not a hash sign and six bytes.
pub open spec fn wheel_hex(hex: Seq<char>) -> Option<Seq<char>> {
    let next = ascii_lower(trimmed(hex));
    if byte_len(next) == 7 && starts_with_text(next, "#"@) {
        Some(next)
    } else {
        None
    }
}

/// Takes over a colour from the wheel, in the theme and in the settings; false where it is none.
pub fn apply_wheel_hex(
    config: &mut ThemeConfig,
    db: &mut Settings,
    target: WheelTarget,
    hex: &str,
) -> (applied: bool)
    ensures
        match wheel_hex(hex@) {
            None => !applied && final(config).model() == old(config).model() && final(db)@
                == old(db)@,
            Some(next) => applied && match target {
                WheelTarget::Base => {
                    &&& final(config).model() == (ThemeModel {
                        color: next,
                        ..old(config).model()
                    })
                    &&& final(db)@ == old(db)@.insert("theme_color"@, next)
                },
                WheelTarget::Accent => {
                    &&& final(config).model() == (ThemeModel {
                        accent_auto: false,
                        accent_color: next,
                        ..old(config).model()
                    })
                    &&& final(db)@ == old(db)@.insert("theme_accent_auto"@, "0"@).insert(
                        "theme_accent_color"@,
                        next,
                    )
                },
            },
        },
{
    let next = ascii_lowercase(trim(hex).as_str());
    if byte_total(&chars_of(next.as_str())) != 7 || !starts_with(next.as_str(), "#") {
        return false;
    }
    match target {
        WheelTarget::Base => {
            db.set_setting("theme_color", next.as_str());
            config.color = next;
        },
        WheelTarget::Accent => {
            db.set_setting("theme_accent_auto", "0");
            db.set_setting("theme_accent_color", next.as_str());
            config.accent_auto = false;
            config.accent_color = next;
        },
    }
    true
}

/// Chooses a preset for the window, in the theme and in the settings; the result is its colour.
pub fn choose_preset(config: &mut ThemeConfig, db: &mut Settings, i: usize) -> (hex: &'static str)
    requires
        i < PRESET_COUNT,
    ensures
        hex@ == preset(i as int).2,
        final(config).model() == (ThemeModel { color: hex@, ..old(config).model() }),
        final(db)@ == old(db)@.insert("theme_color"@, hex@),
{
    let hex = base_preset_color(i).2;
    config.color = owned(hex);
    db.set_setting("theme_color", hex);
    hex
}

/// Chooses an accent, in the theme and in the settings.
pub fn choose_accent(config: &mut ThemeConfig, db: &mut Settings, hex: &str)
    ensures
        final(config).model() == (ThemeModel {
            accent_auto: false,
            accent_color: hex@,
            ..old(config).model()
        }),
        final(db)@ == old(db)@.insert("theme_accent_auto"@, "0"@).insert(
            "theme_accent_color"@,
            hex@,
        ),
{
    config.accent_auto = false;
    config.accent_color = owned(hex);
    db.set_setting("theme_accent_auto", "0");
    db.set_setting("theme_accent_color", hex);
}

/// Whether an accent is the stored one.
pub fn accent_is_selected(accent: &str, accent_color: &str) -> (r: bool)
    ensures
        r == (ascii_lower(accent_color@) == ascii_lower(accent@)),
{
    equal_ignoring_case(accent_color, accent)
}

/// Whether the stored accent was chosen on the wheel: it is a colour, and none of `accents`.
pub open spec fn accent_from_wheel(accents: Seq<Seq<char>>, accent_color: Seq<char>) -> bool {
    starts_with_text(ascii_lower(accent_color), "#"@) && forall|i: int|
        0 <= i < accents.len() ==> ascii_lower(accent_color) != ascii_lower(#[trigger] accents[i])
}

pub fn accent_wheel_is_selected(accents: &Vec<String>, accent_color: &str) -> (r: bool)
    ensures
        r == accent_from_wheel(accents.deep_view(), accent_color@),
{
    let ghost all = accents.deep_view();
    let mut i: usize = 0;
    while i < accents.len()
        invariant
            i <= accents@.len(),
            all == accents.deep_view(),
            forall|k: int|
                0 <= k < i ==> ascii_lower(accent_color@) != ascii_lower(#[trigger] all[k]),
        decreases accents.len() - i,
    {
        assert(all[i as int] == accents@[i as int]@);
        if accent_is_selected(accents[i].as_str(), accent_color) {
            return false;
        }
        i = i + 1;
    }
    starts_with(ascii_lowercase(accent_color).as_str(), "#")
}

/// Switches the automatic accent, in the theme and in the settings.
pub fn set_accent_auto(config: &mut ThemeConfig, db: &mut Settings, auto_accent: bool)
    ensures
        final(config).model() == (ThemeModel { accent_auto: auto_accent, ..old(config).model() }),
        final(db)@ == old(db)@.insert(
            "theme_accent_auto"@,
            if auto_accent {
                "1"@
            } else {
                "0"@
            },
        ),
{
    config.accent_auto = auto_accent;
    if auto_accent {
        db.set_setting("theme_accent_auto", "1");
    } else {
        db.set_setting("theme_accent_auto", "0");
    }
}

/// Chooses a texture, in the theme and in the settings; the result says whether its intensity can
/// be set.
pub fn set_texture(config: &mut ThemeConfig, db: &mut Settings, texture: &str) -> (has_intensity:
    bool)
    ensures
        final(config).model() == (ThemeModel { texture: texture@, ..old(config).model() }),
        final(db)@ == old(db)@.insert("theme_texture"@, texture@),
        has_intensity == (texture@ != "none"@),
{
    config.texture = owned(texture);
    db.set_setting("theme_texture", texture);
    !same(texture, "none")
}

/// A text that was entered as a colour: six hexadecimal digits, with hash signs in front or none.
pub open spec fn entered_hex(text: Seq<char>) -> Option<Seq<char>> {
    let clean = ascii_lower(bare_hex(text));
    if byte_len(clean) == 6 && hex_number(clean) is Some {
        Some("#"@ + clean)
    } else {
        None
    }
}

pub fn entered_color(text: &str) -> (r: Option<String>)
    ensures
        match r {
            Some(hex) => entered_hex(text@) == Some(hex@),
            None => entered_hex(text@) is None,
        },
{
    let bare = strip_leading(trim(text).as_str(), '#');
    let clean = ascii_lowercase(bare.as_str());
    let chars = chars_of(clean.as_str());
    if byte_total(&chars) != 6 {
        return None;
    }
    proof {
        lemma_chars_within(chars@, 6);
    }
    assert(chars@.subrange(0, chars@.len() as int) =~= chars@);
    if number_in(&chars, 0, chars.len()).is_none() {
        return None;
    }
    Some(concat("#", clean.as_str()))
}

/// A colour that was chosen for the window is read back from the settings.
pub proof fn lemma_color_kept(
    settings: Map<Seq<char>, Seq<char>>,
    accents: Seq<Seq<char>>,
    color: Seq<char>,
)
    requires
        starts_with_text(color, "#"@),
    ensures
        stored_theme(settings.insert("theme_color"@, color), accents) == (ThemeModel {
            color,
            ..stored_theme(settings, accents)
        }),
{
    lemma_key_lengths();
    lemma_not_system(color);
}

proof fn lemma_key_lengths()
    ensures
        "theme_color"@.len() == 11,
        "theme_accent_auto"@.len() == 17,
        "theme_accent_color"@.len() == 18,
        "theme_texture"@.len() == 13,
{
    reveal_strlit("theme_color");
    reveal_strlit("theme_accent_auto");
    reveal_strlit("theme_accent_color");
    reveal_strlit("theme_texture");
}

proof fn lemma_not_system(text: Seq<char>)
    requires
        starts_with_text(text, "#"@),
    ensures
        ascii_lower(trimmed(text)) != ascii_lower("system"@),
        starts_with_text(ascii_lower(trimmed(text)), "#"@),
{
    reveal_strlit("system");
    reveal_strlit("#");
    assert(text.len() >= 1);
    assert(text.subrange(0, 1)[0] == '#');
    assert(text[0] == '#');
    assert(trimmed_start(text) == text);
    crate::text::lemma_trimmed_end_is_prefix(text);
    lemma_first_stays(text);
    let t = trimmed(text);
    assert(t.len() >= 1 && t[0] == '#');
    assert(ascii_lower(t)[0] == '#');
    assert(ascii_lower("system"@)[0] == 's');
    assert(ascii_lower(t).subrange(0, 1) =~= "#"@);
}

proof fn lemma_first_stays(s: Seq<char>)
    requires
        s.len() > 0,
        !crate::text::is_space(s[0]),
    ensures
        trimmed_end(s).len() > 0,
        trimmed_end(s)[0] == s[0],
    decreases s.len(),
{
    if crate::text::is_space(s.last()) {
        lemma_first_stays(s.drop_last());
    }
}

/// An accent that was chosen is read back from the settings.
pub proof fn lemma_accent_kept(
    settings: Map<Seq<char>, Seq<char>>,
    accents: Seq<Seq<char>>,
    accent: Seq<char>,
)
    requires
        starts_with_text(accent, "#"@),
    ensures
        stored_theme(
            settings.insert("theme_accent_auto"@, "0"@).insert("theme_accent_color"@, accent),
            accents,
        ) == (ThemeModel {
            accent_auto: false,
            accent_color: accent,
            ..stored_theme(settings, accents)
        }),
{
    lemma_key_lengths();
    lemma_not_system(accent);
    reveal_strlit("0");
    assert(trimmed_start("0"@) == "0"@);
    assert(trimmed_end("0"@) == "0"@);
    assert(ascii_lower("0"@) =~= "0"@);
}

/// Whether the accent is automatic is read back from the settings.
pub proof fn lemma_auto_kept(
    settings: Map<Seq<char>, Seq<char>>,
    accents: Seq<Seq<char>>,
    auto_accent: bool,
)
    ensures
        stored_theme(
            settings.insert(
                "theme_accent_auto"@,
                if auto_accent {
                    "1"@
                } else {
                    "0"@
                },
            ),
            accents,
        ) == (ThemeModel { accent_auto: auto_accent, ..stored_theme(settings, accents) }),
{
    lemma_key_lengths();
    reveal_strlit("0");
    reveal_strlit("1");
    reveal_strlit("false");
    reveal_strlit("off");
    assert(trimmed_start("0"@) == "0"@);
    assert(trimmed_end("0"@) == "0"@);
    assert(ascii_lower("0"@) =~= "0"@);
    assert(trimmed_start("1"@) == "1"@);
    assert(trimmed_end("1"@) == "1"@);
    assert(ascii_lower("1"@) =~= "1"@);
    assert("1"@[0] != "0"@[0]);
}

// ---------------------------------------------------------------------------------------------
// Style sheets
// ---------------------------------------------------------------------------------------------
/// Style sheets one after the other, each on lines of its own.
pub open spec fn stacked(sheets: Seq<Seq<char>>) -> Seq<char>
    decreases sheets.len(),
{
    if sheets.len() == 0 {
        Seq::empty()
    } else {
        stacked(sheets.drop_last()) + sheets.last() + seq!['\n']
    }
}

pub fn combined_css(sheets: &Vec<String>) -> (css: String)
    ensures
        css@ == stacked(sheets.deep_view()),
{
    let ghost all = sheets.deep_view();
    let mut css = String::new();
    let mut i: usize = 0;
    assert(all.take(0) =~= Seq::empty());
    assert(css@ =~= Seq::empty());
    while i < sheets.len()
        invariant
            i <= sheets@.len(),
            all == sheets.deep_view(),
            css@ == stacked(all.take(i as int)),
        decreases sheets@.len() - i,
    {
        assert(all.take(i + 1).drop_last() =~= all.take(i as int));
        assert(all.take(i + 1).last() == sheets@[i as int]@);
        css = concat(css.as_str(), sheets[i].as_str());
        css.push('\n');
        assert(css@ =~= stacked(all.take(i + 1)));
        i = i + 1;
    }
    assert(all.take(i as int) =~= all);
    css
}

/// A rule for one class of preview boxes.
pub open spec fn preview_rule(class: Seq<char>, id: Seq<char>, hex: Seq<char>) -> Seq<char> {
    "."@ + class + id + " { background: "@ + hex + "; }\n"@
}

/// The rules for the first presets, with the colour that `hexes` gives each.
pub open spec fn preview_rules(class: Seq<char>, hexes: Seq<Seq<char>>) -> Seq<char>
    decreases hexes.len(),
{
    if hexes.len() == 0 {
        Seq::empty()
    } else {
        preview_rules(class, hexes.drop_last()) + preview_rule(
            class,
            preset(hexes.len() - 1).0,
            hexes.last(),
        )
    }
}

pub open spec fn preset_hexes() -> Seq<Seq<char>> {
    Seq::new(PRESET_COUNT as nat, |i: int| preset(i).2)
}

fn push_preview_rules(css: &mut String, class: &str, hexes: &Vec<String>)
    requires
        hexes@.len() == PRESET_COUNT,
    ensures
        final(css)@ == old(css)@ + preview_rules(class@, hexes.deep_view()),
{
    let ghost all = hexes.deep_view();
    let ghost before = css@;
    let mut i: usize = 0;
    assert(all.take(0) =~= Seq::empty());
    assert(css@ =~= before + preview_rules(class@, all.take(0)));
    while i < hexes.len()
        invariant
            i <= hexes@.len(),
            hexes@.len() == PRESET_COUNT,
            all == hexes.deep_view(),
            css@ == before + preview_rules(class@, all.take(i as int)),
        decreases hexes.len() - i,
    {
        assert(all.take(i + 1).drop_last() =~= all.take(i as int));
        assert(all.take(i + 1).last() == hexes@[i as int]@);
        let ghost so_far = css@;
        css.append(".");
        css.append(class);
        css.append(base_preset_color(i).0);
        css.append(" { background: ");
        css.append(hexes[i].as_str());
        css.append("; }\n");
        assert(css@ =~= so_far + preview_rule(class@, preset(i as int).0, hexes@[i as int]@));
        assert(css@ =~= before + preview_rules(class@, all.take(i + 1)));
        i = i + 1;
    }
    assert(all.take(i as int) =~= all);
}

/// The style sheet of the boxes in the picker, given the accents of the presets.
pub fn picker_css(preset_accents: &Vec<String>) -> (css: String)
    requires
        preset_accents@.len() == PRESET_COUNT,
    ensures
        css@ == preview_rules("preset-color-"@, preset_hexes()) + preview_rules(
            "preset-accent-"@,
            preset_accents.deep_view(),
        ) + TEXTURE_PREVIEW_CSS@,
{
    let mut hexes: Vec<String> = Vec::new();
    let mut i: usize = 0;
    while i < PRESET_COUNT
        invariant
            i <= PRESET_COUNT,
            hexes.deep_view() == preset_hexes().take(i as int),
        decreases PRESET_COUNT - i,
    {
        let ghost before = hexes.deep_view();
        let hex = owned(base_preset_color(i).2);
        hexes.push(hex);
        i = i + 1;
        assert(hexes.deep_view() =~= before.push(hex@));
        assert(hexes.deep_view() =~= preset_hexes().take(i as int));
    }
    assert(hexes.deep_view() =~= preset_hexes());
    let mut css = String::new();
    push_preview_rules(&mut css, "preset-color-", &hexes);
    push_preview_rules(&mut css, "preset-accent-", preset_accents);
    css.append(TEXTURE_PREVIEW_CSS);
    css
}

/// The background of the window where it has no texture.
pub fn plain_background_css(base_color: &str) -> (css: String)
    ensures
        css@ == PLAIN_HEAD@ + base_color@ + PLAIN_MIDDLE@ + base_color@ + PLAIN_TAIL@,
{
    let mut css = concat(PLAIN_HEAD, base_color);
    css.append(PLAIN_MIDDLE);
    css.append(base_color);
    css.append(PLAIN_TAIL);
    css
}

/// A fade of the sidebar, from the colour of the window to nothing.
pub open spec fn fade(head: Seq<char>, base_color: Seq<char>) -> Seq<char> {
    head + base_color + FADE_STRONG@ + base_color + FADE_WEAK@ + base_color
}

/// The colours of the window and of what opens above it, and the rules that use them.
pub open spec fn palette(
    base_color: Seq<char>,
    popup_color: Seq<char>,
    accent_bg_color: Seq<char>,
    accent_color: Seq<char>,
) -> Seq<char> {
    DEFINE_WINDOW@ + base_color + DEFINE_POPUP@ + popup_color + DEFINE_ACCENT_BG@ + accent_bg_color
        + DEFINE_ACCENT@ + accent_color + fade(PALETTE_RULES@, base_color) + fade(
        FADE_BOTTOM@,
        base_color,
    ) + FADE_END@
}

fn push_fade(css: &mut String, head: &str, base_color: &str)
    ensures
        final(css)@ == old(css)@ + fade(head@, base_color@),
{
    css.append(head);
    css.append(base_color);
    css.append(FADE_STRONG);
    css.append(base_color);
    css.append(FADE_WEAK);
    css.append(base_color);
    assert(css@ =~= old(css)@ + fade(head@, base_color@));
}

/// The style sheet of a theme: the background of the window, then the palette.
pub fn theme_css(
    background: &str,
    base_color: &str,
    popup_color: &str,
    accent_bg_color: &str,
    accent_color: &str,
) -> (css: String)
    ensures
        css@ == background@ + palette(base_color@, popup_color@, accent_bg_color@, accent_color@),
{
    let mut css = owned(background);
    css.append(DEFINE_WINDOW);
    css.append(base_color);
    css.append(DEFINE_POPUP);
    css.append(popup_color);
    css.append(DEFINE_ACCENT_BG);
    css.append(accent_bg_color);
    css.append(DEFINE_ACCENT);
    css.append(accent_color);
    push_fade(&mut css, PALETTE_RULES, base_color);
    push_fade(&mut css, FADE_BOTTOM, base_color);
    css.append(FADE_END);
    assert(css@ =~= background@ + palette(
        base_color@,
        popup_color@,
        accent_bg_color@,
        accent_color@,
    ));
    css
}

pub const TEXTURE_PREVIEW_CSS: &'static str = "\n            .texture-preview-none {\n                background: alpha(@window_fg_color, 0.08);\n                border-radius: 6px;\n            }\n            .texture-preview-dots {\n                background-image:\n                    radial-gradient(circle, alpha(@window_fg_color, 0.15) 2px, transparent 2px),\n                    linear-gradient(135deg, alpha(@window_fg_color, 0.08) 0%, alpha(@window_fg_color, 0.08) 100%);\n                background-size: 12px 12px, 100% 100%;\n                border-radius: 6px;\n            }\n            .texture-preview-grid {\n                background-image:\n                    linear-gradient(alpha(@window_fg_color, 0.12) 1px, transparent 1px),\n                    linear-gradient(90deg, alpha(@window_fg_color, 0.12) 1px, transparent 1px),\n                    linear-gradient(135deg, alpha(@window_fg_color, 0.08) 0%, alpha(@window_fg_color, 0.08) 100%);\n                background-size: 12px 12px, 12px 12px, 100% 100%;\n                border-radius: 6px;\n            }\n            .texture-preview-grain {\n                background-image:\n                    repeating-radial-gradient(145% 108% at -18% 118%,\n                        transparent 0 7px,\n                        alpha(white, 0.16) 7px 8.4px,\n                        transparent 8.4px 14px),\n                    repeating-radial-gradient(132% 100% at 116% -16%,\n                        transparent 0 9px,\n                        alpha(white, 0.09) 9px 10.1px,\n                        transparent 10.1px 17px),\n                    radial-gradient(52% 44% at 52% 50%, alpha(black, 0.10) 0%, transparent 74%),\n                    linear-gradient(135deg, alpha(@window_fg_color, 0.10) 0%, alpha(@window_fg_color, 0.06) 100%);\n                background-size: 100% 100%, 100% 100%, 100% 100%, 100% 100%;\n                background-position: 0 0, 0 0, 0 0, 0 0;\n                border-radius: 6px;\n            }\n            ";

pub const PLAIN_HEAD: &'static str = "\n                .main-container {\n                    background: linear-gradient(135deg, ";

pub const PLAIN_MIDDLE: &'static str = " 0%, ";

pub const PLAIN_TAIL: &'static str = " 100%);\n                }\n            ";

pub const DEFINE_WINDOW: &'static str = "\n                @define-color enzim_window_bg ";

pub const DEFINE_POPUP: &'static str = ";\n                @define-color enzim_popup_bg ";

pub const DEFINE_ACCENT_BG: &'static str = ";\n                @define-color enzim_accent_bg ";

pub const DEFINE_ACCENT: &'static str = ";\n                @define-color enzim_accent ";

pub const PALETTE_RULES: &'static str = ";\n                @define-color window_bg_color @enzim_window_bg;\n                @define-color accent_bg_color @enzim_accent_bg;\n                @define-color accent_color @enzim_accent;\n                @define-color accent_fg_color #ffffff;\n\n                window,\n                window.background,\n                dialog,\n                popover > contents,\n                popover.background > contents,\n                popover.menu > contents {\n                    background-color: alpha(@window_bg_color, 0.98);\n                    background-image: none;\n                }\n\n                popover > arrow,\n                popover.background > arrow,\n                popover.menu > arrow {\n                    background-color: alpha(@window_bg_color, 0.98);\n                    background-image: none;\n                    border: none;\n                    border-color: transparent;\n                    box-shadow: none;\n                }\n\n                popover.actions-popover > contents,\n                popover.actions-popover.background > contents,\n                popover.style-picker-popover > contents,\n                popover.style-picker-popover.background > contents,\n                popover.composer-worktree-popover > contents,\n                popover.composer-worktree-popover.background > contents,\n                popover.compact-selector-popover > contents,\n                popover.compact-selector-popover.background > contents {\n                    background-color: alpha(@enzim_popup_bg, 0.98);\n                    background-image: none;\n                }\n\n                popover.style-picker-popover > contents,\n                popover.style-picker-popover.background > contents,\n                popover.composer-worktree-popover > contents,\n                popover.composer-worktree-popover.background > contents {\n                    border: 1px solid alpha(@window_fg_color, 0.14);\n                    box-shadow: 0 10px 26px alpha(black, 0.28);\n                }\n\n                popover.actions-popover > arrow,\n                popover.actions-popover.background > arrow,\n                popover.style-picker-popover > arrow,\n                popover.style-picker-popover.background > arrow {\n                    background-color: alpha(@enzim_popup_bg, 0.98);\n                    background-image: none;\n                    border: 1px solid alpha(@window_fg_color, 0.14);\n                    box-shadow: none;\n                }\n\n                popover.compact-selector-popover > arrow,\n                popover.compact-selector-popover.background > arrow,\n                popover.composer-worktree-popover > arrow,\n                popover.composer-worktree-popover.background > arrow,\n                popover.composer-attach-popover > arrow,\n                popover.composer-attach-popover.background > arrow,\n                popover.composer-attach-picker-popover > arrow,\n                popover.composer-attach-picker-popover.background > arrow {\n                    background-color: alpha(@enzim_popup_bg, 0.98);\n                    background-image: none;\n                    border: 1px solid alpha(@window_fg_color, 0.14);\n                    box-shadow: none;\n                }\n\n                window.settings-window,\n                window.thread-settings-window,\n                window.file-preview-window,\n                window.git-dialog,\n                window.restore-preview-dialog {\n                    background-color: alpha(@window_bg_color, 0.98);\n                    background-image: none;\n                }\n\n                .sidebar-scroll-fade-top {\n                    background-image: linear-gradient(to bottom,\n                        alpha(";

pub const FADE_STRONG: &'static str = ", 0.90) 0%,\n                        alpha(";

pub const FADE_WEAK: &'static str = ", 0.38) 48%,\n                        alpha(";

pub const FADE_BOTTOM: &'static str = ", 0.0) 100%);\n                }\n\n                .sidebar-scroll-fade-bottom {\n                    background-image: linear-gradient(to top,\n                        alpha(";

pub const FADE_END: &'static str = ", 0.0) 100%);\n                }\n            ";

} // verus!
