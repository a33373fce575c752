use tofi::history::{format_history, parse_history, resolve_history_path, AppHistory, AppHistoryEntry};

#[test]
fn add_new_entry_gets_count_one() {
    let mut h = AppHistory::new();
    h.add("foo");
    assert_eq!(h.entries().len(), 1);
    assert_eq!(h.entries()[0].name, "foo");
    assert_eq!(h.entries()[0].run_count, 1);
}

#[test]
fn add_same_entry_increments_count() {
    let mut h = AppHistory::new();
    h.add("foo");
    h.add("foo");
    assert_eq!(h.entries().len(), 1);
    assert_eq!(h.entries()[0].run_count, 2);
}

#[test]
fn add_bubbles_up_when_count_exceeds_predecessor() {
    let mut h = AppHistory::new();
    h.add("a"); // count 1
    h.add("b"); // count 1  → order: a, b
    h.add("b"); // count 2  → b bubbles past a → order: b, a
    assert_eq!(h.entries()[0].name, "b");
    assert_eq!(h.entries()[1].name, "a");
}

#[test]
fn add_does_not_reorder_on_equal_counts() {
    // If a has count 2 and b reaches count 2, b should NOT jump past a
    // (bubble stops when count <= predecessor's count).
    let mut h = AppHistory::new();
    h.add("a");
    h.add("a"); // a→2
    h.add("b");
    h.add("b"); // b→2 (equal, no swap)
    assert_eq!(h.entries()[0].name, "a");
    assert_eq!(h.entries()[1].name, "b");
}

#[test]
fn add_multiple_distinct_entries() {
    let mut h = AppHistory::new();
    for name in &["c", "a", "b"] {
        h.add(name);
    }
    assert_eq!(h.entries().len(), 3);
    // All have count 1, insertion order preserved.
    let names: Vec<&str> = h.entries().iter().map(|p| p.name.as_str()).collect();
    assert_eq!(names, vec!["c", "a", "b"]);
}

#[test]
fn add_bubbles_to_front() {
    let mut h = AppHistory::new();
    h.add("x");
    h.add("x");
    h.add("x"); // x→3
    h.add("y");
    h.add("y"); // y→2
    h.add("z"); // z→1
    // Expected: x(3), y(2), z(1)
    assert_eq!(h.entries()[0].name, "x");
    assert_eq!(h.entries()[1].name, "y");
    assert_eq!(h.entries()[2].name, "z");

    // Now run z four times → z(5) should jump to front.
    h.add("z");
    h.add("z");
    h.add("z");
    h.add("z"); // z→5
    assert_eq!(h.entries()[0].name, "z");
}

#[test]
fn remove_existing_entry() {
    let mut h = AppHistory::new();
    h.add("foo");
    h.add("bar");
    h.remove("foo");
    assert_eq!(h.entries().len(), 1);
    assert_eq!(h.entries()[0].name, "bar");
}

#[test]
fn remove_nonexistent_is_noop() {
    let mut h = AppHistory::new();
    h.add("foo");
    h.remove("bar"); // should not panic
    assert_eq!(h.entries().len(), 1);
}

#[test]
fn roundtrip_single_entry() {
    let mut h = AppHistory::new();
    h.add("bash");
    let text = format_history(&h);
    let loaded = parse_history(&text);
    assert_eq!(loaded.entries(), h.entries());
}

#[test]
fn roundtrip_multiple_entries_preserves_order_and_counts() {
    let mut h = AppHistory::new();
    // Build an ordered list: foo(3), bar(2), baz(1).
    for _ in 0..3 {
        h.add("foo");
    }
    for _ in 0..2 {
        h.add("bar");
    }
    h.add("baz");

    let text = format_history(&h);
    let loaded = parse_history(&text);

    assert_eq!(loaded.entries().len(), 3);
    assert_eq!(
        loaded.entries()[0],
        AppHistoryEntry {
            name: "foo".into(),
            run_count: 3
        }
    );
    assert_eq!(
        loaded.entries()[1],
        AppHistoryEntry {
            name: "bar".into(),
            run_count: 2
        }
    );
    assert_eq!(
        loaded.entries()[2],
        AppHistoryEntry {
            name: "baz".into(),
            run_count: 1
        }
    );
}

#[test]
fn load_handles_entries_with_spaces_in_name() {
    let h = parse_history("5 my program\n");
    assert_eq!(h.entries().len(), 1);
    assert_eq!(h.entries()[0].name, "my program");
    assert_eq!(h.entries()[0].run_count, 5);
}

#[test]
fn load_skips_malformed_lines() {
    // Good line, a bad line with no space, and another good line.
    let h = parse_history("3 firefox\nbadline\n1 alacritty\n");
    assert_eq!(h.entries().len(), 2);
    assert_eq!(h.entries()[0].name, "firefox");
    assert_eq!(h.entries()[1].name, "alacritty");
}

#[test]
fn load_skips_bad_counts_and_empty_names() {
    let h = parse_history("x firefox\n-1 foot\n2 \n+4 kitty\r\n");
    assert_eq!(h.entries().len(), 1);
    assert_eq!(h.entries()[0].name, "kitty");
    assert_eq!(h.entries()[0].run_count, 4);
}

#[test]
fn format_writes_count_then_name_per_line() {
    let mut h = AppHistory::new();
    h.add("foot");
    h.add("foot");
    h.add("vim");
    assert_eq!(format_history(&h), "2 foot\n1 vim\n");
}

#[test]
fn path_uses_xdg_state_home_when_set() {
    let path = resolve_history_path(Some("/tmp/xdg_state"), Some("/home/user"), false).expect("path");
    assert_eq!(path, "/tmp/xdg_state/tofi-history");
}

#[test]
fn path_falls_back_to_home_local_state() {
    let path = resolve_history_path(None, Some("/home/user"), false).expect("path");
    assert_eq!(path, "/home/user/.local/state/tofi-history");
}

#[test]
fn path_drun_uses_drun_basename() {
    let path = resolve_history_path(Some("/tmp/xdg_state"), Some("/home/user"), true).expect("path");
    assert_eq!(path, "/tmp/xdg_state/tofi-drun-history");
}

#[test]
fn path_returns_none_when_neither_env_set() {
    let path = resolve_history_path(None, None, false);
    assert!(path.is_none());
}

#[test]
fn add_keeps_most_used_first() {
    let mut h = AppHistory::new();
    for name in ["a", "b", "c", "c", "b", "c", "a", "a", "a"] {
        h.add(name);
    }
    let counts: Vec<usize> = h.entries().iter().map(|e| e.run_count).collect();
    assert!(counts.windows(2).all(|w| w[0] >= w[1]));
    assert_eq!(h.entries()[0].name, "a");
    assert_eq!(h.entries()[0].run_count, 4);
}

#[test]
fn history_path_prefers_named_file() {
    assert_eq!(
        tofi::history::history_path(tofi::settings::LaunchMode::Run, Some("/tmp/h"), Some("/s"), None).as_deref(),
        Some("/tmp/h")
    );
    assert_eq!(tofi::history::history_path(tofi::settings::LaunchMode::Dmenu, None, Some("/s"), Some("/home/u")), None);
    assert_eq!(
        tofi::history::history_path(tofi::settings::LaunchMode::Drun, None, Some("/s"), None).as_deref(),
        Some("/s/tofi-drun-history")
    );
    assert_eq!(
        tofi::history::history_path(tofi::settings::LaunchMode::Run, None, None, Some("/home/u")).as_deref(),
        Some("/home/u/.local/state/tofi-history")
    );
    assert_eq!(tofi::history::history_path(tofi::settings::LaunchMode::Run, None, None, None), None);
}

#[test]
fn add_places_entry_after_equal_counts() {
    let mut h = AppHistory::new();
    for n in ["a", "a", "a", "b", "b", "c", "c"] {
        h.add(n);
    }
    // a:3, b:2, c:2
    h.add("c"); // c:3 goes after a (also 3), before b
    let names: Vec<(&str, usize)> = h.entries().iter().map(|e| (e.name.as_str(), e.run_count)).collect();
    assert_eq!(names, vec![("a", 3), ("c", 3), ("b", 2)]);
    // Names stay distinct.
    h.add("d");
    let mut ns: Vec<&str> = h.entries().iter().map(|e| e.name.as_str()).collect();
    ns.sort();
    ns.dedup();
    assert_eq!(ns.len(), 4);
}
