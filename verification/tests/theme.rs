use enzim_ui::settings::Settings;
use enzim_ui::theme::{
    accent_is_selected, accent_wheel_is_selected, apply_wheel_hex, base_preset_color,
    base_theme_color, choose_accent, choose_preset, combined_css, default_manual_accent_color,
    entered_color, hex_comes_apart, hex_text, legacy_accent_preset, load_theme_config,
    parse_hex_color, picker_css, plain_background_css, preset_is_selected, resolved_theme_hex,
    set_accent_auto, set_texture, theme_css, wheel_is_selected, wheel_start, ThemeConfig,
    WheelTarget, PRESET_COUNT,
};

fn accents() -> Vec<String> {
    (0..PRESET_COUNT).map(|i| format!("#00000{i}")).collect()
}

fn settings(entries: &[(&str, &str)]) -> Settings {
    Settings::from_entries(
        entries.iter().map(|(k, v)| (k.to_string(), v.to_string())).collect(),
    )
}

#[test]
fn colours_are_read() {
    assert_eq!(parse_hex_color(" #1E3a5f "), Some((0x1e, 0x3a, 0x5f)));
    assert_eq!(parse_hex_color("##ffffff"), Some((255, 255, 255)));
    assert_eq!(parse_hex_color("#fff"), None);
    assert_eq!(parse_hex_color("#gggggg"), None);
    assert_eq!(parse_hex_color("+f+f+f"), Some((15, 15, 15)));
    assert!(hex_comes_apart("#1e3a5f"));
    assert!(hex_comes_apart("é1234"));
    assert_eq!(parse_hex_color("é1234"), None);
    assert!(!hex_comes_apart("1é234"));
    assert!(!hex_comes_apart("123é4"));
}

#[test]
fn colours_come_back() {
    assert_eq!(hex_text(0x1e, 0x3a, 0x5f), "#1e3a5f");
    for value in [0u8, 9, 10, 15, 16, 127, 255] {
        assert_eq!(parse_hex_color(&hex_text(value, 0, value)), Some((value, 0, value)));
    }
}

#[test]
fn presets_have_colours() {
    assert_eq!(base_preset_color(0), ("default", "Default", "#181616"));
    assert_eq!(resolved_theme_hex("blue"), "#1e3a5f");
    assert_eq!(resolved_theme_hex("#abcdef"), "#abcdef");
    assert_eq!(resolved_theme_hex("#abc"), "#181616");
    assert_eq!(base_theme_color("#abc"), "#abc");
    assert_eq!(base_theme_color("system"), "#181616");
    assert_eq!(base_theme_color("orange"), "#4f3a2a");
    assert!(preset_is_selected(1, "BLUE"));
    assert!(preset_is_selected(1, "#1E3A5F"));
    assert!(!preset_is_selected(2, "blue"));
    assert!(wheel_is_selected("#123456"));
    assert!(!wheel_is_selected("#1e3a5f"));
    assert!(!wheel_is_selected("plain"));
}

#[test]
fn the_theme_is_read_from_the_settings() {
    let config = load_theme_config(&settings(&[]), &accents());
    let standard = ThemeConfig::default();
    assert_eq!(config.color, standard.color);
    assert_eq!(config.accent_color, default_manual_accent_color());
    assert!(!config.accent_auto);
    assert_eq!(config.texture, "none");
    let config = load_theme_config(
        &settings(&[
            ("theme_color", " System "),
            ("theme_accent_auto", "yes"),
            ("theme_accent_color", " Green"),
            ("theme_texture", "dots"),
        ]),
        &accents(),
    );
    assert_eq!(config.color, "default");
    assert!(config.accent_auto);
    assert_eq!(config.accent_color, "#000003");
    assert_eq!(config.texture, "dots");
    assert_eq!(legacy_accent_preset("#123456"), None);
    assert_eq!(legacy_accent_preset("red"), Some(4));
    assert!(!load_theme_config(&settings(&[("theme_accent_auto", " OFF ")]), &accents()).accent_auto);
}

#[test]
fn the_wheel_is_stored() {
    let mut db = settings(&[]);
    let mut config = load_theme_config(&db, &accents());
    assert!(!apply_wheel_hex(&mut config, &mut db, WheelTarget::Base, "#12"));
    assert!(apply_wheel_hex(&mut config, &mut db, WheelTarget::Base, " #ABCDEF "));
    assert_eq!(config.color, "#abcdef");
    assert_eq!(wheel_start(&config, WheelTarget::Base), "#abcdef");
    set_accent_auto(&mut config, &mut db, true);
    assert!(config.accent_auto);
    assert!(apply_wheel_hex(&mut config, &mut db, WheelTarget::Accent, "#010203"));
    assert!(!config.accent_auto);
    assert_eq!(wheel_start(&config, WheelTarget::Accent), "#010203");
    assert!(set_texture(&mut config, &mut db, "grid"));
    assert!(!set_texture(&mut config, &mut db, "none"));
    let again = load_theme_config(&db, &accents());
    assert_eq!(again.color, "#abcdef");
    assert_eq!(again.accent_color, "#010203");
    assert!(!again.accent_auto);
}

#[test]
fn colours_are_entered() {
    assert_eq!(entered_color(" #ABCDEF"), Some("#abcdef".to_string()));
    assert_eq!(entered_color("abcde"), None);
    assert_eq!(entered_color("zzzzzz"), None);
}

#[test]
fn style_sheets_are_stacked() {
    assert_eq!(combined_css(&vec!["a".to_string(), "b".to_string()]), "a\nb\n");
    assert_eq!(combined_css(&vec![]), "");
}

#[test]
fn presets_and_accents_are_stored() {
    let mut db = settings(&[("theme_color", "red")]);
    let mut config = load_theme_config(&db, &accents());
    assert_eq!(choose_preset(&mut config, &mut db, 2), "#3a2a4f");
    set_accent_auto(&mut config, &mut db, true);
    assert!(load_theme_config(&db, &accents()).accent_auto);
    choose_accent(&mut config, &mut db, "#00000A");
    let again = load_theme_config(&db, &accents());
    assert_eq!(again.color, "#3a2a4f");
    assert_eq!(again.accent_color, "#00000A");
    assert!(!again.accent_auto);
    assert!(accent_is_selected("#00000a", &again.accent_color));
    assert!(accent_wheel_is_selected(&accents(), &again.accent_color));
    assert!(!accent_wheel_is_selected(&accents(), "#000001"));
    assert!(!accent_wheel_is_selected(&accents(), "red"));
}

#[test]
fn style_sheets_hold_the_colours() {
    let css = picker_css(&accents());
    assert!(css.starts_with(".preset-color-default { background: #181616; }\n.preset-color-blue"));
    assert!(css.contains("}\n.preset-accent-default { background: #000000; }\n"));
    assert!(css.contains(".preset-accent-orange { background: #000005; }\n\n"));
    assert!(css.contains(".texture-preview-grain {"));
    let plain = plain_background_css("#010203");
    assert!(plain.contains("linear-gradient(135deg, #010203 0%, #010203 100%);"));
    let css = theme_css(&plain, "#010203", "#111111", "#222222", "#333333");
    assert!(css.starts_with(&plain));
    assert!(css.contains("@define-color enzim_window_bg #010203;"));
    assert!(css.contains("@define-color enzim_popup_bg #111111;"));
    assert!(css.contains("@define-color enzim_accent_bg #222222;"));
    assert!(css.contains("@define-color enzim_accent #333333;"));
    assert_eq!(css.matches("alpha(#010203, 0.90) 0%").count(), 2);
    assert_eq!(css.matches("alpha(#010203, 0.0) 100%").count(), 2);
}
