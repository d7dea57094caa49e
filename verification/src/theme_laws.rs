//! What colours and style sheets come to.
use vstd::prelude::*;
#[allow(unused_imports)]
use crate::lines::{ascii_lower, byte_len};
#[allow(unused_imports)]
use crate::text::{ascii_lower_char, starts_with_text, trimmed};
#[allow(unused_imports)]
use crate::theme::{
    accent_from_wheel, bare_hex, entered_hex, from_wheel, hex_digit, hex_digits, hex_number,
    is_preset, named_hex, preset, preset_named, preview_rules, stacked, stored_auto, stored_theme,
    theme_hex, wheel_hex, window_color, PRESET_COUNT,
};

verus! {

proof fn lemma_preset_named(name: Seq<char>, from: int)
    requires
        0 <= from <= 6,
    ensures
        match preset_named(name, from) {
            Some(i) => {
                &&& from <= i < 6
                &&& preset(i).0 == name
                &&& forall|j: int| from <= j < i ==> (#[trigger] preset(j)).0 != name
            },
            None => forall|j: int| from <= j < 6 ==> (#[trigger] preset(j)).0 != name,
        },
    decreases 6 - from,
{
    if from < 6 && preset(from).0 != name {
        lemma_preset_named(name, from + 1);
    }
}

/// The names of the presets tell them apart.
pub proof fn lemma_presets_differ(i: int, j: int)
    requires
        0 <= i < j < 6,
    ensures
        preset(i).0 != preset(j).0,
        preset(i).2 != preset(j).2,
{
    reveal_strlit("default");
    reveal_strlit("blue");
    reveal_strlit("purple");
    reveal_strlit("green");
    reveal_strlit("red");
    reveal_strlit("orange");
    reveal_strlit("#181616");
    reveal_strlit("#1e3a5f");
    reveal_strlit("#3a2a4f");
    reveal_strlit("#2a3f2a");
    reveal_strlit("#4f2a2a");
    reveal_strlit("#4f3a2a");
    assert("default"@.len() == 7);
    assert("blue"@.len() == 4);
    assert("purple"@.len() == 6);
    assert("green"@.len() == 5);
    assert("red"@.len() == 3);
    assert("orange"@.len() == 6);
    assert("purple"@[0] != "orange"@[0]);
    assert("#181616"@[1] == '1' && "#181616"@[2] == '8');
    assert("#1e3a5f"@[1] == '1' && "#1e3a5f"@[2] == 'e');
    assert("#3a2a4f"@[1] == '3');
    assert("#2a3f2a"@[1] == '2');
    assert("#4f2a2a"@[1] == '4' && "#4f2a2a"@[3] == '2');
    assert("#4f3a2a"@[1] == '4' && "#4f3a2a"@[3] == '3');
}

/// A preset has its own colour by its name; a name of none has that of the first one. A colour in
/// digits is itself.
pub proof fn lemma_named_hex(i: int, name: Seq<char>)
    ensures
        0 <= i < 6 ==> named_hex(preset(i).0) == preset(i).2,
        (forall|j: int| 0 <= j < 6 ==> (#[trigger] preset(j)).0 != name) ==> named_hex(name)
            == preset(0).2,
        starts_with_text(name, "#"@) ==> window_color(name) == name,
        !starts_with_text(name, "#"@) ==> window_color(name) == named_hex(name),
        starts_with_text(name, "#"@) && byte_len(name) == 7 ==> theme_hex(name) == name,
        !starts_with_text(name, "#"@) || byte_len(name) != 7 ==> theme_hex(name) == named_hex(name),
{
    lemma_preset_named(name, 0);
    if 0 <= i < 6 {
        lemma_preset_named(preset(i).0, 0);
        let k = preset_named(preset(i).0, 0)->0;
        if k < i {
            lemma_presets_differ(k, i);
        }
    }
}

/// A colour comes from the wheel where it stands in digits and is that of no preset, in any case
/// of its letters.
pub proof fn lemma_from_wheel(color: Seq<char>, i: int)
    requires
        0 <= i < 6,
    ensures
        ascii_lower(color) == ascii_lower(preset(i).2) ==> !from_wheel(color),
        ascii_lower(color) == preset(i).0 ==> !from_wheel(color),
        !starts_with_text(ascii_lower(color), "#"@) ==> !from_wheel(color),
        starts_with_text(ascii_lower(color), "#"@) && (forall|j: int|
            0 <= j < 6 ==> ascii_lower(color) != (#[trigger] preset(j)).0 && ascii_lower(color)
                != ascii_lower(preset(j).2)) ==> from_wheel(color),
{
    assert(is_preset(i, color) == (ascii_lower(color) == preset(i).0 || ascii_lower(color)
        == ascii_lower(preset(i).2)));
    if forall|j: int|
        0 <= j < 6 ==> ascii_lower(color) != (#[trigger] preset(j)).0 && ascii_lower(color)
            != ascii_lower(preset(j).2) {
        assert forall|j: int| 0 <= j < PRESET_COUNT implies !#[trigger] is_preset(j, color) by {
            assert(preset(j).0 == preset(j).0);
        }
    }
}

/// A colour that is entered counts where six digits of base sixteen are left without whitespace
/// and leading number signs; it is kept in small letters, behind one number sign.
pub proof fn lemma_entered_hex(text: Seq<char>, clean: Seq<char>)
    requires
        clean == ascii_lower(bare_hex(text)),
    ensures
        byte_len(clean) == 6 && hex_number(clean) is Some ==> entered_hex(text) == Some(
            "#"@ + clean,
        ),
        byte_len(clean) != 6 || hex_number(clean) is None ==> entered_hex(text) is None,
{
}

/// A number of base sixteen is sixteen times the one before its last digit, and that digit.
pub proof fn lemma_hex_digits(s: Seq<char>, c: char, n: nat, d: nat)
    requires
        hex_digits(s) == Some(n),
        d < 16,
        c == seq!['0', '1', '2', '3', '4', '5', '6', '7', '8', '9', 'a', 'b', 'c', 'd', 'e', 'f'][d as int],
    ensures
        hex_digits(s.push(c)) == Some((16 * n + d) as nat),
        hex_digits(seq![]) == Some(0nat),
{
    assert(s.push(c).drop_last() =~= s);
    assert(hex_digit(c) == Some(d));
}

/// What the wheel gives counts where it is a number sign and six bytes; it is kept in small
/// letters.
pub proof fn lemma_wheel_hex(hex: Seq<char>)
    ensures
        wheel_hex(hex) is Some ==> wheel_hex(hex)->0 == ascii_lower(trimmed(hex)) && byte_len(
            wheel_hex(hex)->0,
        ) == 7 && starts_with_text(wheel_hex(hex)->0, "#"@),
        byte_len(ascii_lower(trimmed(hex))) == 7 && starts_with_text(
            ascii_lower(trimmed(hex)),
            "#"@,
        ) ==> wheel_hex(hex) is Some,
{
}

/// An accent comes from the wheel where it stands in digits and is none of those on offer.
pub proof fn lemma_accent_from_wheel(accents: Seq<Seq<char>>, accent: Seq<char>, i: int)
    ensures
        0 <= i < accents.len() && ascii_lower(accent) == ascii_lower(accents[i])
            ==> !accent_from_wheel(accents, accent),
        !starts_with_text(ascii_lower(accent), "#"@) ==> !accent_from_wheel(accents, accent),
{
}

/// What is stored is read back, the old name of the first colour as its new one; an accent under
/// the name of a preset becomes the accent of it. What is not stored stands as it does from the
/// start.
pub proof fn lemma_stored_theme(
    settings: Map<Seq<char>, Seq<char>>,
    accents: Seq<Seq<char>>,
    i: int,
)
    requires
        accents.len() == 6,
    ensures
        ({
            let theme = stored_theme(settings, accents);
            &&& !settings.contains_key("theme_color"@) ==> theme.color == "default"@
            &&& settings.contains_key("theme_color"@) && ascii_lower(
                trimmed(settings["theme_color"@]),
            ) == ascii_lower("system"@) ==> theme.color == "default"@
            &&& settings.contains_key("theme_color"@) && ascii_lower(
                trimmed(settings["theme_color"@]),
            ) != ascii_lower("system"@) ==> theme.color == settings["theme_color"@]
            &&& !settings.contains_key("theme_accent_auto"@) ==> !theme.accent_auto
            &&& !settings.contains_key("theme_accent_color"@) ==> theme.accent_color == "#519a95"@
            &&& settings.contains_key("theme_accent_color"@) && 0 <= i < 6 && ascii_lower(
                trimmed(settings["theme_accent_color"@]),
            ) == preset(i).0 ==> theme.accent_color == accents[i]
            &&& !settings.contains_key("theme_texture"@) ==> theme.texture == "none"@
            &&& settings.contains_key("theme_texture"@) ==> theme.texture
                == settings["theme_texture"@]
        }),
{
    if settings.contains_key("theme_accent_color"@) && 0 <= i < 6 && ascii_lower(
        trimmed(settings["theme_accent_color"@]),
    ) == preset(i).0 {
        let name = preset(i).0;
        lemma_preset_named(name, 0);
        let k = preset_named(name, 0)->0;
        if k < i {
            lemma_presets_differ(k, i);
        }
        lemma_no_preset_is_digits(i);
    }
}

proof fn lemma_no_preset_is_digits(i: int)
    requires
        0 <= i < 6,
    ensures
        !starts_with_text(preset(i).0, "#"@),
{
    reveal_strlit("default");
    reveal_strlit("blue");
    reveal_strlit("purple");
    reveal_strlit("green");
    reveal_strlit("red");
    reveal_strlit("orange");
    reveal_strlit("#");
    let name = preset(i).0;
    assert(name[0] != '#');
    if starts_with_text(name, "#"@) {
        assert(name.subrange(0, 1)[0] == name[0]);
    }
}

/// An accent that follows the colour is switched off by any of three words, in any case of their
/// letters and with whitespace around them, and on by anything else.
pub proof fn lemma_stored_auto(raw: Seq<char>)
    ensures
        stored_auto(Some(raw)) <==> !(ascii_lower(trimmed(raw)) == "0"@ || ascii_lower(
            trimmed(raw),
        ) == "false"@ || ascii_lower(trimmed(raw)) == "off"@),
        !stored_auto(None),
{
}

/// A style sheet stands behind those before it, on lines of its own.
pub proof fn lemma_stacked(sheets: Seq<Seq<char>>, sheet: Seq<char>)
    ensures
        stacked(sheets.push(sheet)) == stacked(sheets) + sheet + "\n"@,
        stacked(seq![]) == Seq::<char>::empty(),
{
    reveal_strlit("\n");
    assert("\n"@ =~= seq!['\n']);
    assert(sheets.push(sheet).drop_last() =~= sheets);
}

/// There is one rule for each colour, with the name of its preset, in their order.
pub proof fn lemma_preview_rules(class: Seq<char>, hexes: Seq<Seq<char>>, hex: Seq<char>)
    ensures
        preview_rules(class, hexes.push(hex)) == preview_rules(class, hexes) + "."@ + class
            + preset(hexes.len() as int).0 + " { background: "@ + hex + "; }\n"@,
        preview_rules(class, seq![]) == Seq::<char>::empty(),
{
    assert(hexes.push(hex).drop_last() =~= hexes);
    assert(preview_rules(class, hexes.push(hex)) =~= preview_rules(class, hexes) + "."@ + class
        + preset(hexes.len() as int).0 + " { background: "@ + hex + "; }\n"@);
}

/// The case of a digit does not change it.
pub proof fn lemma_hex_any_case(c: char)
    ensures
        hex_digit(ascii_lower_char(c)) == hex_digit(c),
        hex_digit(c) is Some <==> ('0' <= c <= '9') || ('a' <= c <= 'f') || ('A' <= c <= 'F'),
{
}

} // verus!
