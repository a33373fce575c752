use tofi::dmenu::read_lines_from;

#[test]
fn read_lines_skips_empty_lines() {
    let input = "alpha\n\nbeta\n";
    let items = read_lines_from(input.as_bytes(), false);
    assert_eq!(items, ["alpha", "beta"]);
}

#[test]
fn read_lines_trims_trailing_newlines() {
    let input = "one\r\n\r\ntwo\n";
    let items = read_lines_from(input.as_bytes(), false);
    assert_eq!(items, ["one", "two"]);
}

#[test]
fn read_lines_normalizes_when_requested() {
    // LATIN SMALL LETTER A + COMBINING GRAVE ACCENT (NFD)
    let input = "a\u{0300}\n";
    let items = read_lines_from(input.as_bytes(), true);
    // NFC: precomposed LATIN SMALL LETTER A WITH GRAVE
    assert_eq!(items, ["\u{00e0}"]);
}

#[test]
fn read_lines_keeps_last_line_without_newline() {
    let items = read_lines_from(b"first\nlast", false);
    assert_eq!(items, ["first", "last"]);
}

#[test]
fn read_lines_stops_at_invalid_utf8() {
    let items = read_lines_from(b"good\nbad\xff\nnever\n", false);
    assert_eq!(items, ["good"]);
}

#[test]
fn read_lines_keeps_inner_whitespace() {
    let items = read_lines_from(b"  two words \n", false);
    assert_eq!(items, ["  two words "]);
}
