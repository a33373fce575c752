use tofi::color::ColorBytes;
use tofi::matching::MatchingAlgorithm;
use tofi::theme::{
    default_dir, dim_to_unit, parse_algorithm, parse_anchor, parse_cursor_kind, Anchor, CursorKind,
    Dim, UnitValue,
};

/// `parse_hex_color` with the channels scaled to `0.0..=1.0`.
struct Scaled {
    r: f32,
    g: f32,
    b: f32,
    a: f32,
}

fn parse_hex_color(s: &str) -> Option<Scaled> {
    tofi::theme::parse_hex_color(s).map(|c: ColorBytes| Scaled {
        r: c.r as f32 / 255.0,
        g: c.g as f32 / 255.0,
        b: c.b as f32 / 255.0,
        a: c.a as f32 / 255.0,
    })
}

fn resolve_path(name: &str, config_dir: Option<&str>) -> Option<String> {
    tofi::theme::resolve_path(name, config_dir, Some("/home/user/.config/tofi/themes"))
}

// ---------------------------------------------------------------------------
// resolve_path
// ---------------------------------------------------------------------------

#[test]
fn resolve_absolute_unchanged() {
    let result = resolve_path("/etc/tofi/themes/theme.toml", None);
    assert_eq!(result, Some("/etc/tofi/themes/theme.toml".to_string()));
}

#[test]
fn resolve_relative_with_slash_uses_config_dir() {
    let dir = "/home/user/.config/tofi";
    let result = resolve_path("themes/theme.toml", Some(dir));
    assert_eq!(result, Some("/home/user/.config/tofi/themes/theme.toml".to_string()));
}

#[test]
fn resolve_plain_name_uses_default_dir() {
    let result = resolve_path("Sweet.toml", Some("/elsewhere"));
    assert_eq!(result, Some("/home/user/.config/tofi/themes/Sweet.toml".to_string()));
    assert_eq!(tofi::theme::resolve_path("Sweet.toml", None, None), None);
}

#[test]
fn default_dir_prefers_xdg_config_home() {
    assert_eq!(default_dir(Some("/cfg"), Some("/home/u")), Some("/cfg/tofi/themes".to_string()));
    assert_eq!(default_dir(None, Some("/home/u")), Some("/home/u/.config/tofi/themes".to_string()));
    assert_eq!(default_dir(None, None), None);
}

// ---------------------------------------------------------------------------
// Dim parsing
// ---------------------------------------------------------------------------

#[test]
fn dim_integer_becomes_pixels() {
    assert_eq!(dim_to_unit(&Dim::Int(42)), UnitValue::pixels(42));
}

#[test]
fn dim_percent_string_becomes_percent() {
    assert_eq!(
        dim_to_unit(&Dim::Str("45%".to_owned())),
        UnitValue::percent(45)
    );
}

#[test]
fn dim_plain_string_becomes_pixels() {
    assert_eq!(
        dim_to_unit(&Dim::Str("100".to_owned())),
        UnitValue::pixels(100)
    );
}

#[test]
fn dim_text_that_is_no_number_is_zero_pixels() {
    assert_eq!(dim_to_unit(&Dim::Str("wide".to_owned())), UnitValue::pixels(0));
    assert_eq!(dim_to_unit(&Dim::Str("x%".to_owned())), UnitValue::pixels(0));
    assert_eq!(dim_to_unit(&Dim::Str(" 7 % ".to_owned())), UnitValue::pixels(0));
    assert_eq!(dim_to_unit(&Dim::Str(" 7 %".to_owned())), UnitValue::percent(7));
}

// ---------------------------------------------------------------------------
// parse_hex_color
// ---------------------------------------------------------------------------

#[test]
fn parse_hex_six_digit() {
    let c = parse_hex_color("#FF0000").unwrap();
    assert!((c.r - 1.0).abs() < 1e-3);
    assert!(c.g.abs() < 1e-3);
    assert!(c.b.abs() < 1e-3);
    assert_eq!(c.a, 1.0);
}

#[test]
fn parse_hex_eight_digit_with_alpha() {
    let c = parse_hex_color("#000000bb").unwrap();
    assert!(c.r.abs() < 1e-3);
    assert!((c.a - 187.0 / 255.0).abs() < 1e-2);
}

#[test]
fn parse_hex_invalid_returns_none() {
    assert!(parse_hex_color("notacolor").is_none());
    assert!(parse_hex_color("#ZZZZZZ").is_none());
}

#[test]
fn parse_hex_needs_hash_and_six_or_eight_digits() {
    assert!(parse_hex_color("FF0000").is_none());
    assert!(parse_hex_color("#FFF").is_none());
    assert!(parse_hex_color("  #00ff00  ").is_some());
    assert!(parse_hex_color("#é1234").is_none());
}

// ---------------------------------------------------------------------------
// names
// ---------------------------------------------------------------------------

#[test]
fn anchors_by_name() {
    assert_eq!(parse_anchor("top-left"), Anchor::TopLeft);
    assert_eq!(parse_anchor("TOP_RIGHT"), Anchor::TopRight);
    assert_eq!(parse_anchor("bottom"), Anchor::Bottom);
    assert_eq!(parse_anchor("Left"), Anchor::Left);
    assert_eq!(parse_anchor("middle"), Anchor::Center);
}

#[test]
fn cursor_kinds_by_name() {
    assert_eq!(parse_cursor_kind("Block"), CursorKind::Block);
    assert_eq!(parse_cursor_kind("underscore"), CursorKind::Underscore);
    assert_eq!(parse_cursor_kind("bar"), CursorKind::Bar);
    assert_eq!(parse_cursor_kind("anything"), CursorKind::Bar);
}

#[test]
fn algorithms_by_name() {
    assert_eq!(parse_algorithm("FUZZY"), MatchingAlgorithm::Fuzzy);
    assert_eq!(parse_algorithm("prefix"), MatchingAlgorithm::Prefix);
    assert_eq!(parse_algorithm("normal"), MatchingAlgorithm::Normal);
    assert_eq!(parse_algorithm("other"), MatchingAlgorithm::Normal);
}

#[test]
fn px_resolves_percent_and_pixels() {
    assert_eq!(tofi::theme::px(&UnitValue::percent(50), 1920), 960);
    assert_eq!(tofi::theme::px(&UnitValue::percent(33), 1000), 330);
    assert_eq!(tofi::theme::px(&UnitValue::pixels(300), 1920), 300);
}

#[test]
fn config_default_path_from_environment() {
    assert_eq!(tofi::config::default_path(Some("/x"), Some("/home/u")).as_deref(), Some("/x/tofi/config.toml"));
    assert_eq!(
        tofi::config::default_path(None, Some("/home/u")).as_deref(),
        Some("/home/u/.config/tofi/config.toml")
    );
    assert_eq!(tofi::config::default_path(None, None), None);
}

#[test]
fn parse_hex_non_ascii_digits_return_none() {
    assert!(parse_hex_color("#a\u{e9}bcd").is_none());
    assert!(parse_hex_color("#\u{e9}\u{e9}\u{e9}").is_none());
    assert!(parse_hex_color("#+f+f+f").is_none());
}
