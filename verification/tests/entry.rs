use tofi::entry::{CursorStyle, Directional, Selection};

fn results(n: usize) -> Vec<String> {
    (0..n).map(|i| i.to_string()).collect()
}

#[test]
fn reset_selection_clears_state() {
    let mut entry = Selection::new(vec!["a".into(), "b".into(), "c".into()]);
    entry.selection = 2;
    entry.first_result = 1;
    entry.reset_selection();

    assert_eq!(entry.selection, 0);
    assert_eq!(entry.first_result, 0);
}

#[test]
fn select_next_increments_within_page() {
    let mut entry = Selection::new(vec!["a".into(), "b".into(), "c".into()]);
    entry.num_results_drawn = 3;
    entry.selection = 0;
    entry.first_result = 0;

    entry.select_next();
    assert_eq!(entry.selection, 1);
    assert_eq!(entry.first_result, 0);

    entry.select_next();
    assert_eq!(entry.selection, 2);
    assert_eq!(entry.first_result, 0);
}

#[test]
fn select_next_scrolls_forward() {
    // 5 results, page size = 2.
    let mut entry = Selection::new(results(5));
    entry.num_results_drawn = 2;
    entry.selection = 0;
    entry.first_result = 0;

    // Move past the page boundary.
    entry.select_next(); // selection = 1
    entry.select_next(); // selection wraps → 0, first_result += 2 → 2

    assert_eq!(entry.selection, 0);
    assert_eq!(entry.first_result, 2);
}

#[test]
fn select_next_wraps_to_beginning() {
    // 3 results, page size = 3 → one page; wrapping goes back to 0.
    let mut entry = Selection::new(vec!["a".into(), "b".into(), "c".into()]);
    entry.num_results_drawn = 3;
    entry.selection = 2;
    entry.first_result = 0;

    entry.select_next(); // selection wraps → 0, first_result = (0+3) % 3 = 0

    assert_eq!(entry.selection, 0);
    assert_eq!(entry.first_result, 0);
}

#[test]
fn select_prev_decrements_within_page() {
    let mut entry = Selection::new(vec!["a".into(), "b".into(), "c".into()]);
    entry.num_results_drawn = 3;
    entry.selection = 2;
    entry.first_result = 0;

    entry.select_prev();
    assert_eq!(entry.selection, 1);
    assert_eq!(entry.first_result, 0);
}

#[test]
fn select_prev_scrolls_backward() {
    // 5 results, page size = 2; we are on the second page.
    let mut entry = Selection::new(results(5));
    entry.num_results_drawn = 2;
    entry.last_num_results_drawn = 2;
    entry.selection = 0;
    entry.first_result = 2; // showing results [2, 3]

    entry.select_prev(); // first_result goes back; selection = last-1

    // first_result (2) == nsel (2), not > nsel, so falls into the `> 0` branch.
    assert_eq!(entry.first_result, 0);
    assert_eq!(entry.selection, 1); // first_result was 2, so selection = 2 - 1 = 1
}

#[test]
fn select_prev_noop_at_start() {
    let mut entry = Selection::new(vec!["a".into(), "b".into()]);
    entry.num_results_drawn = 2;
    entry.selection = 0;
    entry.first_result = 0;

    entry.select_prev();

    assert_eq!(entry.selection, 0);
    assert_eq!(entry.first_result, 0);
}

#[test]
fn select_prev_jumps_back_a_whole_page() {
    let mut entry = Selection::new(results(10));
    entry.num_results_drawn = 3;
    entry.last_num_results_drawn = 3;
    entry.selection = 0;
    entry.first_result = 6;

    entry.select_prev();

    assert_eq!(entry.first_result, 3);
    assert_eq!(entry.selection, 2);
}

#[test]
fn select_next_page_advances_window() {
    let mut entry = Selection::new(results(10));
    entry.num_results_drawn = 3;
    entry.selection = 1;
    entry.first_result = 0;

    entry.select_next_page();

    assert_eq!(entry.selection, 0);
    assert_eq!(entry.first_result, 3);
    assert_eq!(entry.last_num_results_drawn, 3);
}

#[test]
fn select_next_page_wraps() {
    let mut entry = Selection::new(results(4));
    entry.num_results_drawn = 3;
    entry.selection = 0;
    entry.first_result = 2; // 2 + 3 = 5 ≥ 4 → wraps to 0

    entry.select_next_page();

    assert_eq!(entry.first_result, 0);
    assert_eq!(entry.selection, 0);
}

#[test]
fn select_prev_page_moves_back() {
    let mut entry = Selection::new(results(10));
    entry.num_results_drawn = 3;
    entry.last_num_results_drawn = 3;
    entry.selection = 2;
    entry.first_result = 6;

    entry.select_prev_page();

    assert_eq!(entry.first_result, 3);
    assert_eq!(entry.selection, 0);
}

#[test]
fn select_prev_page_clamps_to_zero() {
    let mut entry = Selection::new(results(10));
    entry.num_results_drawn = 3;
    entry.last_num_results_drawn = 5;
    entry.first_result = 2; // 2 < 5 → clamps to 0

    entry.select_prev_page();

    assert_eq!(entry.first_result, 0);
    assert_eq!(entry.selection, 0);
}

#[test]
fn styles_default_to_bar_and_zero_insets() {
    assert_eq!(CursorStyle::default(), CursorStyle::Bar);
    assert_eq!(Directional::default(), Directional { top: 0, right: 0, bottom: 0, left: 0 });
}

#[test]
fn select_prev_undoes_select_next_within_page() {
    let mut entry = Selection::new(results(6));
    entry.num_results_drawn = 4;
    entry.selection = 1;
    entry.first_result = 2;
    entry.last_num_results_drawn = 3;
    entry.select_next();
    entry.select_prev();
    assert_eq!(entry.selection, 1);
    assert_eq!(entry.first_result, 2);
    assert_eq!(entry.last_num_results_drawn, 3);
}

#[test]
fn result_cap_and_styles() {
    assert_eq!(tofi::entry::result_cap(0, 7), 7);
    assert_eq!(tofi::entry::result_cap(3, 7), 3);
    assert_eq!(tofi::entry::result_style(2, 5, 2), tofi::entry::ResultStyle::Selection);
    assert_eq!(tofi::entry::result_style(0, 5, 2), tofi::entry::ResultStyle::Alternate);
    assert_eq!(tofi::entry::result_style(1, 5, 2), tofi::entry::ResultStyle::Default);
}
