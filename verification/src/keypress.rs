//! What a key press does to the launcher: the input line, the cursor in it,
//! the selected result, and whether the launcher closes, submits, pastes or
//! redraws.

use vstd::prelude::*;

use crate::entry::{
    next_page_state, next_state, page_size, prev_page_state, prev_state, Selection, SelectionState,
};
use crate::input::{
    add_char, clear_input, delete_char, delete_word, spec_add_char, spec_delete_char, word_start, KeyAction,
};
use crate::text::chars_of;
use crate::unicode::MAX_INPUT_LENGTH;

verus! {

/// The text typed so far, the cursor in it, and the results it selects among.
pub struct EntryState {
    /// The characters typed so far.
    pub input: String,
    /// Index of the character the cursor stands before.
    pub cursor_position: usize,
    /// The results and the selection among them.
    pub list: Selection,
}

/// What the launcher does after a key press, besides updating the entry.
#[derive(Debug, Clone, Copy, PartialEq, Eq, Structural)]
pub struct KeyEffect {
    /// The launcher closes without a choice.
    pub close: bool,
    /// The selected result is chosen.
    pub submit: bool,
    /// Text is to be pasted from the clipboard.
    pub paste: bool,
    /// The entry is to be drawn again.
    pub redraw: bool,
}

/// The plain values of an entry state.
pub ghost struct EditView {
    pub input: Seq<char>,
    pub cursor: int,
    pub list: SelectionState,
}

impl EntryState {
    /// The plain values of the entry.
    pub open spec fn view(&self) -> EditView {
        EditView { input: self.input@, cursor: self.cursor_position as int, list: self.list.state() }
    }
}

/// The selection at the first result, scrolled to the top.
pub open spec fn reset_state(s: SelectionState) -> SelectionState {
    SelectionState { selection: 0, first_result: 0, ..s }
}

/// No effect besides the update.
pub open spec fn no_effect() -> KeyEffect {
    KeyEffect { close: false, submit: false, paste: false, redraw: false }
}

/// The entry after a key that edits or moves; keys that close, submit or are
/// unbound leave it as it is.
pub open spec fn edited(v: EditView, action: KeyAction, show_cursor: bool) -> EditView {
    match action {
        KeyAction::InsertChar(c) => {
            let r = spec_add_char(v.input, v.cursor, c, MAX_INPUT_LENGTH as int);
            EditView { input: r.0, cursor: r.1, list: reset_state(v.list) }
        },
        KeyAction::DeleteChar => {
            let r = spec_delete_char(v.input, v.cursor);
            EditView { input: r.0, cursor: r.1, list: reset_state(v.list) }
        },
        KeyAction::DeleteWord => {
            let w = word_start(v.input, v.cursor);
            EditView { input: v.input.take(w) + v.input.skip(v.cursor), cursor: w, list: reset_state(v.list) }
        },
        KeyAction::ClearInput => EditView { input: Seq::empty(), cursor: 0, list: reset_state(v.list) },
        KeyAction::PrevCursorOrResult => {
            if show_cursor && v.list.selection == 0 && v.cursor > 0 {
                EditView { cursor: v.cursor - 1, ..v }
            } else {
                EditView { list: prev_state(v.list), ..v }
            }
        },
        KeyAction::NextCursorOrResult => {
            if show_cursor && v.cursor < v.input.len() {
                EditView { cursor: v.cursor + 1, ..v }
            } else {
                EditView { list: next_state(v.list), ..v }
            }
        },
        KeyAction::PrevResult => EditView { list: prev_state(v.list), ..v },
        KeyAction::NextResult => EditView { list: next_state(v.list), ..v },
        KeyAction::ResetSelection => EditView { list: reset_state(v.list), ..v },
        KeyAction::PrevPage => EditView { list: prev_page_state(v.list), ..v },
        KeyAction::NextPage => EditView { list: next_page_state(v.list), ..v },
        _ => v,
    }
}

/// What a key press leads to: closing, submitting and unbound keys change
/// nothing else; any other key updates the entry as [`edited`] says and asks
/// for a redraw, asks for a paste when it is the paste key, and submits when
/// single results are accepted at once and exactly one result is left.
pub open spec fn key_effect(v: EditView, action: KeyAction, show_cursor: bool, auto_accept_single: bool) -> KeyEffect {
    match action {
        KeyAction::Close => KeyEffect { close: true, ..no_effect() },
        KeyAction::Submit => KeyEffect { submit: true, ..no_effect() },
        KeyAction::Unknown => no_effect(),
        _ => KeyEffect {
            close: false,
            submit: auto_accept_single && edited(v, action, show_cursor).list.len == 1,
            paste: action is Paste,
            redraw: true,
        },
    }
}

/// Whether moving the selection down stays within machine integers.
pub open spec fn can_select_next(s: SelectionState) -> bool {
    &&& s.selection < usize::MAX
    &&& s.selection + 1 >= page_size(s.drawn, s.len) ==> s.first_result + page_size(s.drawn, s.len) <= usize::MAX
}

/// Whether moving the selection up stays within machine integers.
pub open spec fn can_select_prev(s: SelectionState) -> bool {
    s.selection == 0 && s.first_result > page_size(s.drawn, s.len) ==> s.last_drawn <= s.first_result
}

/// Whether the moves that `action` makes stay within machine integers.
pub open spec fn key_fits(v: EditView, action: KeyAction, show_cursor: bool) -> bool {
    match action {
        KeyAction::PrevCursorOrResult => !(show_cursor && v.list.selection == 0 && v.cursor > 0) ==> can_select_prev(
            v.list,
        ),
        KeyAction::NextCursorOrResult => !(show_cursor && v.cursor < v.input.len()) ==> can_select_next(v.list),
        KeyAction::PrevResult => can_select_prev(v.list),
        KeyAction::NextResult => can_select_next(v.list),
        KeyAction::NextPage => v.list.first_result + v.list.drawn <= usize::MAX,
        _ => true,
    }
}

/// Applies the key `action` to the entry, as [`edited`] and [`key_effect`]
/// say. `show_cursor` tells whether the text cursor is shown (then the left
/// and right keys move it before they move the selection);
/// `auto_accept_single` whether a single remaining result is chosen at once.
pub fn handle_key_action(
    entry: &mut EntryState,
    action: KeyAction,
    show_cursor: bool,
    auto_accept_single: bool,
) -> (eff: KeyEffect)
    requires
        old(entry).cursor_position <= old(entry).input@.len(),
        key_fits(old(entry).view(), action, show_cursor),
    ensures
        final(entry).view() == (match action {
            KeyAction::Close | KeyAction::Submit | KeyAction::Unknown => old(entry).view(),
            _ => edited(old(entry).view(), action, show_cursor),
        }),
        final(entry).list.results@ == old(entry).list.results@,
        eff == key_effect(old(entry).view(), action, show_cursor, auto_accept_single),
        final(entry).cursor_position <= final(entry).input@.len(),
{
    match action {
        KeyAction::Close => {
            return KeyEffect { close: true, submit: false, paste: false, redraw: false };
        },
        KeyAction::Submit => {
            return KeyEffect { close: false, submit: true, paste: false, redraw: false };
        },
        KeyAction::Unknown => {
            return KeyEffect { close: false, submit: false, paste: false, redraw: false };
        },
        KeyAction::InsertChar(c) => {
            add_char(&mut entry.input, &mut entry.cursor_position, c, MAX_INPUT_LENGTH);
            entry.list.reset_selection();
        },
        KeyAction::DeleteChar => {
            delete_char(&mut entry.input, &mut entry.cursor_position);
            entry.list.reset_selection();
        },
        KeyAction::DeleteWord => {
            delete_word(&mut entry.input, &mut entry.cursor_position);
            entry.list.reset_selection();
            proof {
                let s0 = old(entry).input@;
                let c0 = old(entry).cursor_position as int;
                crate::input::lemma_skip_back_bounds(s0, c0);
                crate::input::lemma_skip_back_bounds(s0, crate::input::skip_space_back(s0, c0));
            }
        },
        KeyAction::ClearInput => {
            clear_input(&mut entry.input, &mut entry.cursor_position);
            entry.list.reset_selection();
        },
        KeyAction::Paste => {},
        KeyAction::PrevCursorOrResult => {
            if show_cursor && entry.list.selection == 0 && entry.cursor_position > 0 {
                entry.cursor_position = entry.cursor_position - 1;
            } else {
                entry.list.select_prev();
            }
        },
        KeyAction::NextCursorOrResult => {
            let n = chars_of(entry.input.as_str()).len();
            if show_cursor && entry.cursor_position < n {
                entry.cursor_position = entry.cursor_position + 1;
            } else {
                entry.list.select_next();
            }
        },
        KeyAction::PrevResult => {
            entry.list.select_prev();
        },
        KeyAction::NextResult => {
            entry.list.select_next();
        },
        KeyAction::ResetSelection => {
            entry.list.reset_selection();
        },
        KeyAction::PrevPage => {
            entry.list.select_prev_page();
        },
        KeyAction::NextPage => {
            entry.list.select_next_page();
        },
    }
    let submit = auto_accept_single && entry.list.results.len() == 1;
    KeyEffect { close: false, submit, paste: action == KeyAction::Paste, redraw: true }
}

/// Every key that changes the typed text puts the selection back on the
/// first result, at the top of the list, and leaves the list's other
/// counts as they were.
pub proof fn law_editing_resets_selection(v: EditView, action: KeyAction, show_cursor: bool)
    requires
        action is InsertChar || action is DeleteChar || action is DeleteWord || action is ClearInput,
    ensures
        edited(v, action, show_cursor).list.selection == 0,
        edited(v, action, show_cursor).list.first_result == 0,
        edited(v, action, show_cursor).list.len == v.list.len,
        edited(v, action, show_cursor).list.drawn == v.list.drawn,
        edited(v, action, show_cursor).list.last_drawn == v.list.last_drawn,
{
}

/// What each kind of key leads to: closing, submitting and unbound keys do
/// only that; every other key asks for a redraw, and only the paste key for a
/// paste; clearing empties the input; the keys that move through the results
/// or paste leave the typed text and the cursor alone, and going back to the
/// top selects the first result.
pub proof fn law_key_effects(v: EditView, action: KeyAction, show_cursor: bool, auto_accept_single: bool)
    ensures
        action is Close ==> key_effect(v, action, show_cursor, auto_accept_single) == (KeyEffect {
            close: true,
            submit: false,
            paste: false,
            redraw: false,
        }),
        action is Submit ==> key_effect(v, action, show_cursor, auto_accept_single) == (KeyEffect {
            close: false,
            submit: true,
            paste: false,
            redraw: false,
        }),
        action is Unknown ==> key_effect(v, action, show_cursor, auto_accept_single) == (KeyEffect {
            close: false,
            submit: false,
            paste: false,
            redraw: false,
        }),
        !(action is Close || action is Submit || action is Unknown) ==> {
            let e = key_effect(v, action, show_cursor, auto_accept_single);
            e.redraw && !e.close && (e.paste <==> action is Paste)
        },
        action is ClearInput ==> edited(v, action, show_cursor).input.len() == 0 && edited(
            v,
            action,
            show_cursor,
        ).cursor == 0,
        (action is PrevResult || action is NextResult || action is ResetSelection || action is PrevPage
            || action is NextPage || action is Paste) ==> edited(v, action, show_cursor).input == v.input && edited(
            v,
            action,
            show_cursor,
        ).cursor == v.cursor,
        action is Paste ==> edited(v, action, show_cursor) == v,
        action is ResetSelection ==> edited(v, action, show_cursor).list.selection == 0 && edited(
            v,
            action,
            show_cursor,
        ).list.first_result == 0,
{
}

} // verus!
