use tofi::entry::Selection;
use tofi::input::KeyAction;
use tofi::keypress::{handle_key_action, EntryState, KeyEffect};

fn entry(input: &str, cursor: usize, n: usize) -> EntryState {
    let mut list = Selection::new((0..n).map(|i| i.to_string()).collect());
    list.num_results_drawn = n;
    EntryState { input: input.to_string(), cursor_position: cursor, list }
}

#[test]
fn typing_inserts_and_resets_selection() {
    let mut e = entry("fx", 1, 3);
    e.list.selection = 2;
    let eff = handle_key_action(&mut e, KeyAction::InsertChar('o'), true, false);
    assert_eq!(e.input, "fox");
    assert_eq!(e.cursor_position, 2);
    assert_eq!(e.list.selection, 0);
    assert_eq!(eff, KeyEffect { close: false, submit: false, paste: false, redraw: true });
}

#[test]
fn close_and_submit_change_nothing() {
    let mut e = entry("abc", 3, 2);
    let eff = handle_key_action(&mut e, KeyAction::Close, true, false);
    assert!(eff.close && !eff.redraw);
    let eff = handle_key_action(&mut e, KeyAction::Submit, true, false);
    assert!(eff.submit && !eff.redraw);
    let eff = handle_key_action(&mut e, KeyAction::Unknown, true, false);
    assert_eq!(eff, KeyEffect { close: false, submit: false, paste: false, redraw: false });
    assert_eq!(e.input, "abc");
}

#[test]
fn left_moves_cursor_when_shown() {
    let mut e = entry("abc", 2, 3);
    handle_key_action(&mut e, KeyAction::PrevCursorOrResult, true, false);
    assert_eq!(e.cursor_position, 1);
    let mut e = entry("abc", 2, 3);
    e.list.selection = 1;
    handle_key_action(&mut e, KeyAction::PrevCursorOrResult, false, false);
    assert_eq!(e.cursor_position, 2);
    assert_eq!(e.list.selection, 0);
}

#[test]
fn right_moves_selection_at_end_of_input() {
    let mut e = entry("abc", 3, 3);
    handle_key_action(&mut e, KeyAction::NextCursorOrResult, true, false);
    assert_eq!(e.cursor_position, 3);
    assert_eq!(e.list.selection, 1);
}

#[test]
fn single_result_is_accepted_when_asked() {
    let mut e = entry("a", 1, 1);
    let eff = handle_key_action(&mut e, KeyAction::DeleteChar, true, true);
    assert_eq!(e.input, "");
    assert!(eff.submit && eff.redraw);
}

#[test]
fn paste_is_requested() {
    let mut e = entry("", 0, 0);
    let eff = handle_key_action(&mut e, KeyAction::Paste, true, false);
    assert!(eff.paste && eff.redraw);
}

#[test]
fn delete_word_and_clear() {
    let mut e = entry("hello world", 11, 0);
    handle_key_action(&mut e, KeyAction::DeleteWord, true, false);
    assert_eq!(e.input, "hello ");
    assert_eq!(e.cursor_position, 6);
    handle_key_action(&mut e, KeyAction::ClearInput, true, false);
    assert_eq!(e.input, "");
    assert_eq!(e.cursor_position, 0);
}

#[test]
fn typing_then_backspace_restores_input() {
    let mut e = entry("tofi", 2, 0);
    handle_key_action(&mut e, KeyAction::InsertChar('x'), true, false);
    handle_key_action(&mut e, KeyAction::DeleteChar, true, false);
    assert_eq!(e.input, "tofi");
    assert_eq!(e.cursor_position, 2);
}
