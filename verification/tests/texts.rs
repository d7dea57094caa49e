use enzim_ui::json::{parse, render, Json};
use enzim_ui::lines::{equal_ignoring_case, join, lines, nonblank_lines, split_at_char, words};
use enzim_ui::markdown::{
    agents_file_name, agents_note, finish_markup, looks_like_unfenced_diff, markdown_to_pango,
    render_inline_markdown, AgentsNote, MarkupPiece,
};
use enzim_ui::number::{decimal_i64, decimal_u128, parse_i64, parse_usize};
use enzim_ui::settings::{bool_setting, bool_setting_text, is_multiview_enabled, Settings};
use enzim_ui::text::{contains, rsplit_once, split_once, strip_prefix, trim};

fn shown(pieces: Vec<MarkupPiece>) -> String {
    pieces
        .iter()
        .map(|piece| match piece {
            MarkupPiece::Tag(tag) => tag.clone(),
            MarkupPiece::Text(text) => text.replace('<', "&lt;"),
        })
        .collect()
}

#[test]
fn texts_are_taken_apart() {
    assert_eq!(trim("\u{a0} a\u{2003}"), "a");
    assert_eq!(split_once("a: b: c", ": "), Some(("a".to_string(), "b: c".to_string())));
    assert_eq!(rsplit_once("a: b: c", ": "), Some(("a: b".to_string(), "c".to_string())));
    assert_eq!(strip_prefix("abc", "ab"), Some("c".to_string()));
    assert_eq!(strip_prefix("abc", "b"), None);
    assert!(contains("abc", ""));
    assert!(!contains("abc", "ac"));
    assert_eq!(lines("a\r\nb\n\nc"), vec!["a", "b", "", "c"]);
    assert_eq!(lines("a\n"), vec!["a"]);
    assert_eq!(nonblank_lines(" a \n \nb"), vec!["a", "b"]);
    assert_eq!(words(" a  b "), vec!["a", "b"]);
    assert_eq!(split_at_char("a\tb\t", '\t'), vec!["a", "b", ""]);
    assert_eq!(join(&vec!["a".to_string(), "b".to_string()], ", "), "a, b");
    assert!(equal_ignoring_case("TRUE", "true"));
    assert!(!equal_ignoring_case("É", "é"));
}

#[test]
fn numbers_come_back() {
    for n in [0, -1, 42, i64::MIN, i64::MAX] {
        assert_eq!(parse_i64(&decimal_i64(n)), Some(n));
    }
    assert_eq!(parse_i64("+7"), Some(7));
    assert_eq!(parse_i64(""), None);
    assert_eq!(parse_i64("9223372036854775808"), None);
    assert_eq!(parse_usize("-1"), None);
    assert_eq!(decimal_u128(u128::MAX), "340282366920938463463374607431768211455");
}

#[test]
fn documents_come_back() {
    let raw = r#"{"a":[1,-2,"x",null,true,1.5],"b":{"c":"d"}}"#;
    let doc = parse(raw).unwrap();
    assert_eq!(render(&doc), raw);
    assert!(parse("{").is_none());
    assert_eq!(doc.get("b").unwrap().str_at("c"), Some("d"));
    let items = doc.array_at("a").unwrap();
    assert_eq!(items[0].as_u64(), Some(1));
    assert_eq!(items[1].as_i64(), Some(-2));
    assert_eq!(items[1].as_u64(), None);
    assert_eq!(items[5].as_i64(), None);
    assert_eq!(items[2].as_str(), Some("x"));
    assert!(doc.get("z").is_none());
    assert_eq!(render(&doc.copy()), raw);
    let twice = Json::Obj(vec![
        ("k".to_string(), Json::UInt(1)),
        ("k".to_string(), Json::UInt(2)),
    ]);
    assert_eq!(render(&twice), r#"{"k":2}"#);
    assert_eq!(twice.u64_at("k"), Some(2));
}

#[test]
fn settings_are_switches() {
    let mut db = Settings::from_entries(vec![("multiview_enabled".to_string(), "0".to_string())]);
    assert!(!is_multiview_enabled(&db));
    db.set_setting("multiview_enabled", bool_setting_text(true));
    assert!(is_multiview_enabled(&db));
    db.set_setting("other", "TRUE");
    assert!(bool_setting(&db, "other", false));
    assert!(bool_setting(&db, "missing", true));
    assert_eq!(db.get_setting("multiview_enabled"), Some("1"));
    assert_eq!(bool_setting_text(false), "0");
}

#[test]
fn inline_markup() {
    assert_eq!(shown(render_inline_markdown("a **b** `c` <", true)), "a <b>b</b> <tt>c</tt> &lt;");
    assert_eq!(
        shown(render_inline_markdown("[x]( http://y )", true)),
        "<a href=\"http://y\">x</a>"
    );
    assert_eq!(shown(render_inline_markdown("[x](y)", false)), "[x](y)");
    assert_eq!(shown(render_inline_markdown("**open", true)), "**open");
}

#[test]
fn markdown_blocks() {
    let markup = shown(markdown_to_pango("# T\n- a\n```\nx < y\n```\nend", true));
    assert_eq!(
        finish_markup(&markup),
        "<span weight=\"700\" size=\"x-large\">T</span>\n• a\n<span alpha=\"85%\"><tt>x &lt; y\n</tt></span>\nend"
    );
    assert!(looks_like_unfenced_diff("@@ -1 +1 @@"));
    assert!(!looks_like_unfenced_diff("text"));
}

#[test]
fn instructions_of_a_workspace() {
    assert!(matches!(agents_note(None), AgentsNote::Plain(t) if t.starts_with("No AGENTS.md")));
    assert!(matches!(agents_note(Some(" ")), AgentsNote::Plain("AGENTS.md is empty.")));
    assert!(matches!(agents_note(Some("@@ x")), AgentsNote::Verbatim));
    assert!(matches!(agents_note(Some("# x")), AgentsNote::Markup));
    assert_eq!(agents_file_name(true, true), Some("AGENTS.md"));
    assert_eq!(agents_file_name(false, true), Some("agents.md"));
    assert_eq!(agents_file_name(false, false), None);
}
