use tofi::config_text::{parse_config_line, strip, ConfigLine, ParseError};

fn chars(s: &str) -> Vec<char> {
    s.chars().collect()
}

fn text(v: Option<Vec<char>>) -> Option<String> {
    v.map(|c| c.into_iter().collect())
}

#[test]
fn comments_and_blank_lines_are_skipped() {
    for line in ["", "   ", "# note", "  ; note", "[section]"] {
        assert_eq!(parse_config_line(line), ConfigLine::Skip);
    }
}

#[test]
fn option_key_and_value_are_stripped() {
    assert_eq!(
        parse_config_line("  font-size = \"24\"  "),
        ConfigLine::Option { key: "font-size".into(), value: "24".into() }
    );
    assert_eq!(
        parse_config_line("font-features = \"\""),
        ConfigLine::Option { key: "font-features".into(), value: "".into() }
    );
}

#[test]
fn include_is_recognised_in_any_case() {
    assert_eq!(
        parse_config_line("Include = /etc/tofi/extra"),
        ConfigLine::Include { path: "/etc/tofi/extra".into() }
    );
}

#[test]
fn malformed_lines_are_errors() {
    assert_eq!(
        parse_config_line("novalue"),
        ConfigLine::Error { message: "Config option missing value in: novalue".into() }
    );
    assert_eq!(
        parse_config_line("= 3"),
        ConfigLine::Error { message: "Missing option (line starts with '=')".into() }
    );
    assert_eq!(
        parse_config_line("key =   "),
        ConfigLine::Error { message: "Missing key or value in: key =".into() }
    );
    assert_eq!(
        parse_config_line("\"\" = 3"),
        ConfigLine::Error { message: "Missing key or value in: \"\" = 3".into() }
    );
}

#[test]
fn strip_removes_quotes_on_both_sides_only() {
    assert_eq!(text(strip(&chars("  \"a b\" "))), Some("a b".to_string()));
    assert_eq!(text(strip(&chars("\"a"))), Some("\"a".to_string()));
    assert_eq!(text(strip(&chars("\""))), Some("\"".to_string()));
    assert_eq!(text(strip(&chars("   "))), None);
}

#[test]
fn parse_error_text() {
    let e = ParseError { file: "/c/config".into(), line: 12, message: "bad".into() };
    assert_eq!(e.to_string(), "/c/config: line 12: bad");
    let e = ParseError { file: "/c/config".into(), line: 0, message: "too deep".into() };
    assert_eq!(e.to_string(), "/c/config: too deep");
}

#[test]
fn scan_numbers_lines_and_gives_up_after_five_errors() {
    let text = "# comment\nfont = Sans\ninclude = other.conf\nbad\n=x\nbad\nbad\nbad\nlast = 1\nmore = 2\n";
    let es = tofi::config_text::scan_config(text);
    assert_eq!(es[0], tofi::config_text::ConfigEntry::Option { key: "font".into(), value: "Sans".into() });
    assert_eq!(es[1], tofi::config_text::ConfigEntry::Include { path: "other.conf".into() });
    match &es[2] {
        tofi::config_text::ConfigEntry::Error { line, .. } => assert_eq!(*line, 4),
        other => panic!("unexpected {other:?}"),
    }
    assert_eq!(es.len(), 8);
    assert_eq!(
        es[7],
        tofi::config_text::ConfigEntry::Error { line: 9, message: "Too many errors (> 5), giving up".into() }
    );
}

#[test]
fn scan_reads_all_lines_with_few_errors() {
    let es = tofi::config_text::scan_config("a = 1\r\nbad\nb = \"two\"");
    assert_eq!(es.len(), 3);
    assert_eq!(es[2], tofi::config_text::ConfigEntry::Option { key: "b".into(), value: "two".into() });
}
