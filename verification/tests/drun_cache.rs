use tofi::drun::DesktopEntry;
use tofi::drun_cache::{format_cache, parse_cache};

#[test]
fn cache_roundtrip_preserves_all_fields() {
    let entries = vec![DesktopEntry {
        id: "foo.desktop".into(),
        name: "Foo".into(),
        path: "/usr/share/applications/foo.desktop".into(),
        keywords: "util;".into(),
        exec_line: "foo %u".into(),
        icon: "foo-icon".into(),
        terminal: false,
    }];
    let text = format_cache(&entries);
    let loaded = parse_cache(&text).expect("load");
    assert_eq!(loaded, entries);
}

#[test]
fn cache_roundtrip_terminal_true() {
    let entries = vec![DesktopEntry {
        id: "term.desktop".into(),
        name: "Terminal App".into(),
        path: "/usr/share/applications/term.desktop".into(),
        keywords: String::new(),
        exec_line: "myapp".into(),
        icon: String::new(),
        terminal: true,
    }];
    let text = format_cache(&entries);
    let loaded = parse_cache(&text).expect("load");
    assert!(loaded[0].terminal);
}

#[test]
fn cache_text_layout() {
    let entries = vec![DesktopEntry {
        id: "a".into(),
        name: "A".into(),
        path: "/p".into(),
        keywords: "k".into(),
        exec_line: "e".into(),
        icon: "i".into(),
        terminal: true,
    }];
    assert_eq!(format_cache(&entries), "#tofi-rs-drun-v1\na\0A\0/p\0k\0e\0i\01\n");
}

#[test]
fn cache_with_wrong_header_is_refused() {
    assert!(parse_cache("#other-format-v0\na\0A\0/p\0k\0e\0i\00\n").is_none());
    assert!(parse_cache("").is_none());
}

#[test]
fn cache_skips_short_records() {
    let loaded = parse_cache("#tofi-rs-drun-v1  \r\nbroken\0line\nx\0X\0/x\0\0x\0\00\n").expect("load");
    assert_eq!(loaded.len(), 1);
    assert_eq!(loaded[0].id, "x");
    assert_eq!(loaded[0].keywords, "");
    assert!(!loaded[0].terminal);
}

#[test]
fn cache_is_stale_when_a_directory_is_newer() {
    assert!(tofi::drun_cache::cache_is_stale(&[5, 20, 7], 10));
    assert!(!tofi::drun_cache::cache_is_stale(&[5, 10, -3], 10));
    assert!(!tofi::drun_cache::cache_is_stale(&[], 10));
}
