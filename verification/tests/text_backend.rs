use tofi::text_backend::{
    char_index_to_byte, find_match_position, parse_font_features, FontFeature, TextExtents,
};

#[test]
fn char_index_counts_utf8_bytes() {
    assert_eq!(char_index_to_byte("héllo", 0), 0);
    assert_eq!(char_index_to_byte("héllo", 2), 3);
    assert_eq!(char_index_to_byte("héllo", 5), 6);
    assert_eq!(char_index_to_byte("abc", 10), 3);
    assert_eq!(char_index_to_byte("", 0), 0);
}

#[test]
fn match_position_ignores_case() {
    assert_eq!(find_match_position("Firefox Browser", "BROW"), Some((8, 12)));
    assert_eq!(find_match_position("Ärger", "RG"), Some((2, 4)));
    assert_eq!(find_match_position("Ärger", "äR"), Some((0, 3)));
}

#[test]
fn match_position_none_cases() {
    assert_eq!(find_match_position("firefox", ""), None);
    assert_eq!(find_match_position("firefox", "chrome"), None);
    assert_eq!(find_match_position("", "a"), None);
}

#[test]
fn font_features_parse_items() {
    let fs = parse_font_features("liga=0, smcp ,, kern = 2,zz=x, abcdef");
    assert_eq!(
        fs,
        vec![
            FontFeature { tag: *b"liga", value: Some(0) },
            FontFeature { tag: *b"smcp", value: None },
            FontFeature { tag: *b"kern", value: Some(2) },
            FontFeature { tag: *b"zz  ", value: Some(1) },
            FontFeature { tag: *b"abcd", value: None },
        ]
    );
}

#[test]
fn font_features_empty_list() {
    assert!(parse_font_features("").is_empty());
    assert!(parse_font_features(" , ,").is_empty());
    assert_eq!(
        parse_font_features("é"),
        vec![FontFeature { tag: [0xc3, 0xa9, b' ', b' '], value: None }]
    );
}

#[test]
fn set_logical_width_keeps_other_extents() {
    let mut e = TextExtents { ink_x: 1, ink_width: 2, logical_x: 3, logical_width: 4, logical_height: 5 };
    e.set_logical_width(40);
    assert_eq!(
        e,
        TextExtents { ink_x: 1, ink_width: 2, logical_x: 3, logical_width: 40, logical_height: 5 }
    );
    assert_eq!(TextExtents::default().logical_width, 0);
}

#[test]
fn match_position_is_in_haystack_bytes() {
    // KELVIN SIGN is three bytes and lowercases to a one-byte 'k'.
    assert_eq!(find_match_position("\u{212A}x", "x"), Some((3, 4)));
    assert_eq!(find_match_position("\u{212A}x", "KX"), Some((0, 2)));
}
