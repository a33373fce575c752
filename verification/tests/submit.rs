use tofi::drun::DesktopEntry;
use tofi::history::AppHistory;
use tofi::settings::LaunchMode;
use tofi::submit::{
    anchor_edges, decide_submit, launch_line, sort_by_history, sort_drun_by_history, SubmitChoice,
};
use tofi::theme::Anchor;

#[test]
fn sort_by_history_orders_by_run_count_descending() {
    let mut hist = AppHistory::new();
    hist.add("b");
    hist.add("b");
    hist.add("a");

    let mut items = vec!["a".to_string(), "b".to_string(), "c".to_string()];
    sort_by_history(&mut items, &hist);

    assert_eq!(items[0], "b");
    assert_eq!(items[1], "a");
    assert_eq!(items[2], "c");
}

#[test]
fn sort_by_history_empty_history_preserves_order() {
    let hist = AppHistory::new();
    let mut items = vec!["x".to_string(), "y".to_string(), "z".to_string()];
    sort_by_history(&mut items, &hist);
    assert_eq!(items, vec!["x", "y", "z"]);
}

#[test]
fn sort_by_history_keeps_order_of_equal_counts() {
    let mut hist = AppHistory::new();
    hist.add("q");
    hist.add("p");
    let mut items = vec!["m".to_string(), "p".to_string(), "n".to_string(), "q".to_string()];
    sort_by_history(&mut items, &hist);
    assert_eq!(items, vec!["p", "q", "m", "n"]);
}

#[test]
fn sort_drun_by_history_orders_by_run_count() {
    let make_entry = |name: &str| DesktopEntry {
        id: name.to_string(),
        name: name.to_string(),
        path: "/tmp".to_string(),
        keywords: String::new(),
        exec_line: name.to_string(),
        icon: String::new(),
        terminal: false,
    };

    let mut entries = vec![
        make_entry("app-a"),
        make_entry("app-b"),
        make_entry("app-c"),
    ];

    let mut hist = AppHistory::new();
    hist.add("app-b");
    hist.add("app-b");

    sort_drun_by_history(&mut entries, &hist);

    assert_eq!(entries[0].name, "app-b");
    assert!(entries[1..].iter().any(|e| e.name == "app-a"));
    assert!(entries[1..].iter().any(|e| e.name == "app-c"));
}

#[test]
fn anchor_top_left_contains_top_and_left() {
    let result = anchor_edges(Anchor::TopLeft);
    assert!(result.top, "should contain Top");
    assert!(result.left, "should contain Left");
    assert!(!result.right, "should not contain Right");
    assert!(
        !result.bottom,
        "should not contain Bottom"
    );
}

#[test]
fn anchor_top_spans_full_width() {
    let result = anchor_edges(Anchor::Top);
    assert!(result.top);
    assert!(result.left);
    assert!(result.right);
    assert!(!result.bottom);
}

#[test]
fn anchor_top_right_contains_top_and_right() {
    let result = anchor_edges(Anchor::TopRight);
    assert!(result.top);
    assert!(result.right);
    assert!(!result.left);
    assert!(!result.bottom);
}

#[test]
fn anchor_right_spans_full_height() {
    let result = anchor_edges(Anchor::Right);
    assert!(result.right);
    assert!(result.top);
    assert!(result.bottom);
    assert!(!result.left);
}

#[test]
fn anchor_bottom_right_contains_bottom_and_right() {
    let result = anchor_edges(Anchor::BottomRight);
    assert!(result.bottom);
    assert!(result.right);
    assert!(!result.top);
    assert!(!result.left);
}

#[test]
fn anchor_bottom_spans_full_width() {
    let result = anchor_edges(Anchor::Bottom);
    assert!(result.bottom);
    assert!(result.left);
    assert!(result.right);
    assert!(!result.top);
}

#[test]
fn anchor_bottom_left_contains_bottom_and_left() {
    let result = anchor_edges(Anchor::BottomLeft);
    assert!(result.bottom);
    assert!(result.left);
    assert!(!result.top);
    assert!(!result.right);
}

#[test]
fn anchor_left_spans_full_height() {
    let result = anchor_edges(Anchor::Left);
    assert!(result.left);
    assert!(result.top);
    assert!(result.bottom);
    assert!(!result.right);
}

#[test]
fn anchor_center_is_empty() {
    let result = anchor_edges(Anchor::Center);
    assert!(!(result.top || result.bottom || result.left || result.right), "Center should map to empty anchor flags");
}

#[test]
fn submit_without_results() {
    assert_eq!(decide_submit(0, 0, 0, LaunchMode::Drun, false), SubmitChoice::Nothing);
    assert_eq!(decide_submit(0, 0, 0, LaunchMode::Dmenu, true), SubmitChoice::Nothing);
    assert_eq!(decide_submit(0, 0, 0, LaunchMode::Run, false), SubmitChoice::PrintInput);
}

#[test]
fn submit_picks_selected_result_clamped_to_last() {
    assert_eq!(decide_submit(10, 3, 2, LaunchMode::Run, true), SubmitChoice::Result(5));
    assert_eq!(decide_submit(4, 3, 2, LaunchMode::Drun, true), SubmitChoice::Result(3));
}

#[test]
fn launch_line_uses_terminal_when_asked() {
    let mut e = DesktopEntry {
        id: "htop.desktop".into(),
        name: "htop".into(),
        path: "/usr/share/applications/htop.desktop".into(),
        keywords: String::new(),
        exec_line: "htop %f".into(),
        icon: String::new(),
        terminal: true,
    };
    assert_eq!(launch_line(&e, Some("foot")), "foot htop");
    assert_eq!(launch_line(&e, Some("")), "xterm htop");
    assert_eq!(launch_line(&e, None), "xterm htop");
    e.terminal = false;
    assert_eq!(launch_line(&e, Some("foot")), "htop");
}
