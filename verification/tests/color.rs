use std::str::FromStr;

use tofi::color::ColorBytes;
use tofi::error::Error;

/// A color with channels scaled to `0.0..=1.0`, as the launcher draws with.
struct Color {
    r: f32,
    g: f32,
    b: f32,
    a: f32,
}

impl Color {
    fn from_hex(s: &str) -> Result<Color, Error> {
        let c = ColorBytes::from_hex(s)?;
        Ok(Color {
            r: c.r as f32 / 255.0,
            g: c.g as f32 / 255.0,
            b: c.b as f32 / 255.0,
            a: c.a as f32 / 255.0,
        })
    }
}

impl FromStr for Color {
    type Err = Error;

    fn from_str(s: &str) -> Result<Self, Error> {
        Self::from_hex(s)
    }
}

// Approximate float equality for channel values.
fn approx(a: f32, b: f32) -> bool {
    (a - b).abs() < 1e-6
}

#[test]
fn rrggbb_no_hash() {
    let c = Color::from_hex("ff0000").unwrap();
    assert!(approx(c.r, 1.0));
    assert!(approx(c.g, 0.0));
    assert!(approx(c.b, 0.0));
    assert!(approx(c.a, 1.0));
}

#[test]
fn rrggbb_with_hash() {
    let c = Color::from_hex("#00ff00").unwrap();
    assert!(approx(c.r, 0.0));
    assert!(approx(c.g, 1.0));
    assert!(approx(c.b, 0.0));
    assert!(approx(c.a, 1.0));
}

#[test]
fn rrggbb_black() {
    let c = Color::from_hex("#000000").unwrap();
    assert!(approx(c.r, 0.0));
    assert!(approx(c.g, 0.0));
    assert!(approx(c.b, 0.0));
    assert!(approx(c.a, 1.0));
}

#[test]
fn rrggbb_white() {
    let c = Color::from_hex("#ffffff").unwrap();
    assert!(approx(c.r, 1.0));
    assert!(approx(c.g, 1.0));
    assert!(approx(c.b, 1.0));
    assert!(approx(c.a, 1.0));
}

#[test]
fn rrggbb_uppercase() {
    let c = Color::from_hex("#FF8000").unwrap();
    assert!(approx(c.r, 1.0));
    assert!(approx(c.g, 128.0 / 255.0));
    assert!(approx(c.b, 0.0));
    assert!(approx(c.a, 1.0));
}

#[test]
fn rrggbbaa_with_hash() {
    let c = Color::from_hex("#ff000080").unwrap();
    assert!(approx(c.r, 1.0));
    assert!(approx(c.g, 0.0));
    assert!(approx(c.b, 0.0));
    assert!(approx(c.a, 128.0 / 255.0));
}

#[test]
fn rrggbbaa_fully_transparent() {
    let c = Color::from_hex("#ffffff00").unwrap();
    assert!(approx(c.a, 0.0));
}

#[test]
fn rrggbbaa_no_hash() {
    let c = Color::from_hex("aabbccdd").unwrap();
    assert!(approx(c.r, 0xAA as f32 / 255.0));
    assert!(approx(c.g, 0xBB as f32 / 255.0));
    assert!(approx(c.b, 0xCC as f32 / 255.0));
    assert!(approx(c.a, 0xDD as f32 / 255.0));
}

#[test]
fn rgb_shorthand_no_hash() {
    // "f00" → "ff0000" + alpha FF
    let c = Color::from_hex("f00").unwrap();
    assert!(approx(c.r, 1.0));
    assert!(approx(c.g, 0.0));
    assert!(approx(c.b, 0.0));
    assert!(approx(c.a, 1.0));
}

#[test]
fn rgb_shorthand_with_hash() {
    // "#abc" → "#aabbcc" + alpha FF
    let c = Color::from_hex("#abc").unwrap();
    assert!(approx(c.r, 0xAA as f32 / 255.0));
    assert!(approx(c.g, 0xBB as f32 / 255.0));
    assert!(approx(c.b, 0xCC as f32 / 255.0));
    assert!(approx(c.a, 1.0));
}

#[test]
fn rgb_shorthand_white() {
    let c = Color::from_hex("#fff").unwrap();
    assert!(approx(c.r, 1.0));
    assert!(approx(c.g, 1.0));
    assert!(approx(c.b, 1.0));
    assert!(approx(c.a, 1.0));
}

#[test]
fn rgba_shorthand_no_hash() {
    // "f00f" → "ff0000ff"
    let c = Color::from_hex("f00f").unwrap();
    assert!(approx(c.r, 1.0));
    assert!(approx(c.g, 0.0));
    assert!(approx(c.b, 0.0));
    assert!(approx(c.a, 1.0));
}

#[test]
fn rgba_shorthand_semi_transparent() {
    // "#f008" → "#ff000088"
    let c = Color::from_hex("#f008").unwrap();
    assert!(approx(c.r, 1.0));
    assert!(approx(c.g, 0.0));
    assert!(approx(c.b, 0.0));
    assert!(approx(c.a, 0x88 as f32 / 255.0));
}

#[test]
fn from_str_trait() {
    let c: Color = "#ff0000".parse().unwrap();
    assert!(approx(c.r, 1.0));
}

#[test]
fn invalid_length_empty() {
    assert!(Color::from_hex("").is_err());
}

#[test]
fn invalid_length_five() {
    assert!(Color::from_hex("12345").is_err());
}

#[test]
fn invalid_length_seven() {
    assert!(Color::from_hex("#1234567").is_err());
}

#[test]
fn invalid_hex_digits() {
    assert!(Color::from_hex("#zzzzzz").is_err());
}

#[test]
fn invalid_hex_digits_short() {
    assert!(Color::from_hex("#ggg").is_err());
}

#[test]
fn packed_bytes_of_shorthand() {
    let c = ColorBytes::from_hex("#1a2").unwrap();
    assert_eq!((c.r, c.g, c.b, c.a), (0x11, 0xaa, 0x22, 0xff));
}

#[test]
fn plus_sign_is_no_hex_digit() {
    let e = ColorBytes::from_hex("+12345").unwrap_err();
    assert_eq!(e.to_string(), "Invalid value: invalid hex digits in color \"+12345\"");
}

#[test]
fn length_error_message() {
    match ColorBytes::from_hex("12345") {
        Err(Error::InvalidValue(m)) => assert_eq!(m, "invalid color length 5 in \"12345\""),
        _ => panic!("expected an invalid value"),
    }
}

#[test]
fn digits_error_message() {
    match ColorBytes::from_hex("#zzzzzz") {
        Err(Error::InvalidValue(m)) => assert_eq!(m, "invalid hex digits in color \"zzzzzz\""),
        _ => panic!("expected an invalid value"),
    }
}

#[test]
fn shorthand_digit_error_message() {
    match ColorBytes::from_hex("#1g3") {
        Err(Error::InvalidValue(m)) => assert_eq!(m, "invalid hex digit 'g' in color"),
        _ => panic!("expected an invalid value"),
    }
}

#[test]
fn error_text_names_the_kind() {
    let e = ColorBytes::from_hex("").unwrap_err();
    assert_eq!(e.to_string(), "Invalid value: invalid color length 0 in \"\"");
}

#[test]
fn from_hex_rejects_sign() {
    assert!(ColorBytes::from_hex("+fffff").is_err());
    assert!(ColorBytes::from_hex("#+fffffff").is_err());
    assert!(ColorBytes::from_hex("+fffffff").is_err());
}

#[test]
fn io_and_utf8_errors_carry_their_prefix() {
    let e = Error::Io(std::io::Error::new(std::io::ErrorKind::Other, "boom"));
    assert_eq!(e.to_string(), "I/O error: boom");
    let bad = [0xffu8];
    let u = std::str::from_utf8(&bad).unwrap_err();
    let e = Error::Utf8(u);
    assert_eq!(e.to_string(), format!("UTF-8 error: {u}"));
    assert!(e.to_string().starts_with("UTF-8 error: invalid utf-8"));
}
