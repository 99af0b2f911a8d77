use slimbrave::keymap::KeyMap;
use slimbrave::theme::{
    from_rgb, parse_color, ButtonStyle, Rgba, Theme, ThemeBase, ThemeOverrides,
};

#[test]
fn dark_and_light_themes_are_consistent() {
    let dark = Theme::dark();
    let light = Theme::light();
    assert!(dark.is_dark);
    assert!(!light.is_dark);
    assert_ne!(dark.bg, light.bg);
    assert_ne!(dark.text, light.text);
}

#[test]
fn parse_color_accepts_hex_formats() {
    assert_eq!(parse_color("#ff0000"), Some(from_rgb(255, 0, 0)));
    assert_eq!(parse_color("ff000080"), Some(Rgba { r: 255, g: 0, b: 0, a: 128 }));
    assert_eq!(parse_color("nope"), None);
    assert_eq!(parse_color("#12345"), None);
}

#[test]
fn theme_overrides_apply_over_base() {
    let mut colors = KeyMap::new();
    colors.insert("bg".to_string(), "#ff0000".to_string());
    colors.insert("panel".to_string(), "#00ff00".to_string());
    colors.insert("button_danger".to_string(), "#0000ff".to_string());
    colors.insert("not_a_token".to_string(), "#123456".to_string());
    let overrides = ThemeOverrides::from_raw(Some("light"), Some(&colors));
    let theme = overrides.apply();
    assert!(!theme.is_dark, "base light must be applied");
    assert_eq!(theme.bg, from_rgb(255, 0, 0));
    assert_eq!(theme.panel, from_rgb(0, 255, 0));
    assert_eq!(theme.buttons.danger, from_rgb(0, 0, 255));
    assert_ne!(theme.accent, theme.bg, "untouched tokens keep base values");
}

#[test]
fn theme_overrides_default_to_dark_base() {
    let mut colors = KeyMap::new();
    colors.insert("bg".to_string(), "#101010".to_string());
    let overrides = ThemeOverrides::from_raw(None, Some(&colors));
    assert!(overrides.apply().is_dark);
}

#[test]
fn colors_allow_whitespace_case_and_plus_signs() {
    assert_eq!(parse_color("  #AbCdEf "), Some(from_rgb(0xAB, 0xCD, 0xEF)));
    assert_eq!(parse_color("+f0000ff"), Some(Rgba { r: 15, g: 0, b: 0, a: 255 }));
    assert_eq!(parse_color("##ff0000"), None);
    assert_eq!(parse_color("gg0000"), None);
    assert_eq!(parse_color(""), None);
}

#[test]
fn theme_base_names() {
    assert_eq!(ThemeBase::parse(" Dark "), Some(ThemeBase::Dark));
    assert_eq!(ThemeBase::parse("LIGHT"), Some(ThemeBase::Light));
    assert_eq!(ThemeBase::parse("dim"), None);
    assert!(Theme::of_base(ThemeBase::Light) == Theme::light());
}

#[test]
fn tokens_set_single_colors() {
    let mut theme = Theme::dark();
    let red = from_rgb(255, 0, 0);
    theme.set_token("button_info", red);
    assert_eq!(theme.button_color(ButtonStyle::Info), red);
    assert_eq!(theme.button_color(ButtonStyle::Danger), Theme::dark().buttons.danger);
    let before = theme;
    theme.set_token("unknown", red);
    assert_eq!(theme, before);
    assert_eq!(Theme::dark().bg, from_rgb(0x19, 0x19, 0x19));
    assert_eq!(Theme::light().selection, from_rgb(0xBB, 0xDE, 0xFB));
}

#[test]
fn overrides_skip_colors_that_do_not_parse() {
    let mut colors = KeyMap::new();
    colors.insert("bg".to_string(), "oops".to_string());
    colors.insert("text".to_string(), "#010203".to_string());
    let overrides = ThemeOverrides::from_raw(Some("sepia"), Some(&colors));
    assert_eq!(overrides.base, None);
    assert_eq!(overrides.colors.len(), 1);
    let theme = overrides.apply();
    assert_eq!(theme.bg, Theme::dark().bg);
    assert_eq!(theme.text, from_rgb(1, 2, 3));
    let none = ThemeOverrides::from_raw(None, None);
    assert!(none.colors.is_empty());
}
