//! Input handling: key-binding dispatch and editing of the input line.
//!
//! [`classify_keypress`] maps a key event to a [`KeyAction`]; the editing
//! helpers operate on the input string and a cursor counted in characters.

use vstd::prelude::*;

use crate::text::{chars_of, string_of};
use crate::unicode::{char_is_whitespace, spec_is_control, spec_is_whitespace, utf32_isprint};

verus! {

// ── Linux evdev key codes (`linux/input-event-codes.h`) ──────────────────────

pub const KEY_ESC: u32 = 1;
pub const KEY_BACKSPACE: u32 = 14;
pub const KEY_TAB: u32 = 15;
pub const KEY_ENTER: u32 = 28;
pub const KEY_LEFTBRACE: u32 = 26;
pub const KEY_B: u32 = 48;
pub const KEY_C: u32 = 46;
pub const KEY_F: u32 = 33;
pub const KEY_G: u32 = 34;
pub const KEY_H: u32 = 35;
pub const KEY_J: u32 = 36;
pub const KEY_K: u32 = 37;
pub const KEY_L: u32 = 38;
pub const KEY_M: u32 = 50;
pub const KEY_N: u32 = 49;
pub const KEY_P: u32 = 25;
pub const KEY_U: u32 = 22;
pub const KEY_V: u32 = 47;
pub const KEY_W: u32 = 17;
pub const KEY_HOME: u32 = 102;
pub const KEY_UP: u32 = 103;
pub const KEY_PAGEUP: u32 = 104;
pub const KEY_LEFT: u32 = 105;
pub const KEY_RIGHT: u32 = 106;
pub const KEY_DOWN: u32 = 108;
pub const KEY_PAGEDOWN: u32 = 109;
pub const KEY_KPENTER: u32 = 96;

/// The logical action produced by a single key event.
#[derive(Debug, Clone, Copy, PartialEq, Eq, Structural)]
pub enum KeyAction {
    /// Insert a printable character at the cursor.
    InsertChar(char),
    /// Delete the character before the cursor (Backspace / Ctrl+H).
    DeleteChar,
    /// Delete the word before the cursor (Ctrl+W / Ctrl+Backspace).
    DeleteWord,
    /// Clear the input field (Ctrl+U).
    ClearInput,
    /// Paste from the clipboard (Ctrl+V).
    Paste,
    /// Move the cursor left, or select the previous result at position 0.
    PrevCursorOrResult,
    /// Move the cursor right, or select the next result at the end.
    NextCursorOrResult,
    /// Select the previous result.
    PrevResult,
    /// Select the next result.
    NextResult,
    /// Jump back one page of results (Page Up).
    PrevPage,
    /// Jump forward one page of results (Page Down).
    NextPage,
    /// Reset the selection to the first result (Home).
    ResetSelection,
    /// Close the launcher (Escape / Ctrl+C / Ctrl+G / Ctrl+[).
    Close,
    /// Accept the current selection (Enter / KP-Enter / Ctrl+M).
    Submit,
    /// The key is not bound.
    Unknown,
}

/// `char::from_u32`: `Some` exactly for Unicode scalar values, holding that value.
#[verifier::external_body]
fn char_from_u32(v: u32) -> (r: Option<char>)
    ensures
        r is Some <==> vstd::utf8::is_scalar(v),
        r matches Some(c) ==> c as u32 == v,
{
    char::from_u32(v)
}

/// The character a key produced, when it is a printable Unicode scalar value.
pub open spec fn printable(ch: u32) -> Option<char> {
    if vstd::utf8::is_scalar(ch) && !spec_is_control(ch as char) {
        Some(ch as char)
    } else {
        None
    }
}

/// The action bound to a key event, rule by rule in order of precedence.
pub open spec fn spec_classify(ctrl: bool, alt: bool, shift: bool, key: u32, ch: u32) -> KeyAction {
    if printable(ch) is Some && !ctrl && !alt {
        KeyAction::InsertChar(ch as char)
    } else if (key == KEY_BACKSPACE || key == KEY_W) && ctrl {
        KeyAction::DeleteWord
    } else if key == KEY_BACKSPACE || (key == KEY_H && ctrl) {
        KeyAction::DeleteChar
    } else if key == KEY_U && ctrl {
        KeyAction::ClearInput
    } else if key == KEY_V && ctrl {
        KeyAction::Paste
    } else if key == KEY_LEFT {
        KeyAction::PrevCursorOrResult
    } else if key == KEY_RIGHT {
        KeyAction::NextCursorOrResult
    } else if key == KEY_UP || (key == KEY_TAB && shift) || (key == KEY_H && alt) || ((key
        == KEY_K || key == KEY_P || key == KEY_B) && (ctrl || alt)) {
        KeyAction::PrevResult
    } else if key == KEY_DOWN || key == KEY_TAB || (key == KEY_L && alt) || ((key == KEY_J || key
        == KEY_N || key == KEY_F) && (ctrl || alt)) {
        KeyAction::NextResult
    } else if key == KEY_HOME {
        KeyAction::ResetSelection
    } else if key == KEY_PAGEUP {
        KeyAction::PrevPage
    } else if key == KEY_PAGEDOWN {
        KeyAction::NextPage
    } else if key == KEY_ESC || ((key == KEY_C || key == KEY_LEFTBRACE || key == KEY_G) && ctrl) {
        KeyAction::Close
    } else if key == KEY_ENTER || key == KEY_KPENTER || (key == KEY_M && ctrl) {
        KeyAction::Submit
    } else {
        KeyAction::Unknown
    }
}

/// Classifies a key event. `key` is a Linux evdev key code; `ch` is the
/// character the key produced in the current keyboard state (0 for none).
pub fn classify_keypress(ctrl: bool, alt: bool, shift: bool, key: u32, ch: u32) -> (a: KeyAction)
    ensures
        a == spec_classify(ctrl, alt, shift, key, ch),
{
    match char_from_u32(ch) {
        Some(c) => {
            proof {
                vstd::utf8::char_u32_cast(c, ch);
            }
            if utf32_isprint(c) && !ctrl && !alt {
                return KeyAction::InsertChar(c);
            }
        },
        None => {},
    }
    if (key == KEY_BACKSPACE || key == KEY_W) && ctrl {
        return KeyAction::DeleteWord;
    }
    if key == KEY_BACKSPACE || (key == KEY_H && ctrl) {
        return KeyAction::DeleteChar;
    }
    if key == KEY_U && ctrl {
        return KeyAction::ClearInput;
    }
    if key == KEY_V && ctrl {
        return KeyAction::Paste;
    }
    if key == KEY_LEFT {
        return KeyAction::PrevCursorOrResult;
    }
    if key == KEY_RIGHT {
        return KeyAction::NextCursorOrResult;
    }
    if key == KEY_UP || (key == KEY_TAB && shift) || (key == KEY_H && alt) || ((key == KEY_K || key
        == KEY_P || key == KEY_B) && (ctrl || alt)) {
        return KeyAction::PrevResult;
    }
    if key == KEY_DOWN || key == KEY_TAB || (key == KEY_L && alt) || ((key == KEY_J || key == KEY_N
        || key == KEY_F) && (ctrl || alt)) {
        return KeyAction::NextResult;
    }
    if key == KEY_HOME {
        return KeyAction::ResetSelection;
    }
    if key == KEY_PAGEUP {
        return KeyAction::PrevPage;
    }
    if key == KEY_PAGEDOWN {
        return KeyAction::NextPage;
    }
    if key == KEY_ESC || ((key == KEY_C || key == KEY_LEFTBRACE || key == KEY_G) && ctrl) {
        return KeyAction::Close;
    }
    if key == KEY_ENTER || key == KEY_KPENTER || (key == KEY_M && ctrl) {
        return KeyAction::Submit;
    }
    KeyAction::Unknown
}

// ── Editing the input line ───────────────────────────────────────────────────

/// Index of the start of the whitespace run that ends at index `i` of `s`.
pub open spec fn skip_space_back(s: Seq<char>, i: int) -> int
    decreases i,
{
    if i > 0 && i <= s.len() && spec_is_whitespace(s[i - 1]) {
        skip_space_back(s, i - 1)
    } else {
        i
    }
}

/// Index of the start of the non-whitespace run that ends at index `i` of `s`.
pub open spec fn skip_word_back(s: Seq<char>, i: int) -> int
    decreases i,
{
    if i > 0 && i <= s.len() && !spec_is_whitespace(s[i - 1]) {
        skip_word_back(s, i - 1)
    } else {
        i
    }
}

/// Where the cursor lands after deleting the word before index `c`: trailing
/// whitespace first, then the word.
pub open spec fn word_start(s: Seq<char>, c: int) -> int {
    skip_word_back(s, skip_space_back(s, c))
}

pub proof fn lemma_skip_back_bounds(s: Seq<char>, i: int)
    requires
        0 <= i <= s.len(),
    ensures
        0 <= skip_space_back(s, i) <= i,
        0 <= skip_word_back(s, i) <= i,
    decreases i,
{
    if i > 0 {
        lemma_skip_back_bounds(s, i - 1);
    }
}

/// The input and cursor after typing `ch`: it goes before the character at
/// `cursor` (at the end when the cursor is past it) and the cursor advances,
/// unless the input already holds `max_len` characters.
pub open spec fn spec_add_char(input: Seq<char>, cursor: int, ch: char, max_len: int) -> (Seq<char>, int) {
    if input.len() >= max_len {
        (input, cursor)
    } else {
        let k = if cursor < input.len() {
            cursor
        } else {
            input.len() as int
        };
        (input.insert(k, ch), cursor + 1)
    }
}

/// The input and cursor after deleting backwards: the character before the
/// cursor goes and the cursor moves back; nothing changes at position 0 or
/// on empty input.
pub open spec fn spec_delete_char(input: Seq<char>, cursor: int) -> (Seq<char>, int) {
    if cursor == 0 || input.len() == 0 {
        (input, cursor)
    } else {
        (input.remove(cursor - 1), cursor - 1)
    }
}

/// Typing a character and deleting it again gives back the input and the
/// cursor, for a cursor within the input and an input that is not full.
pub proof fn law_delete_undoes_add(input: Seq<char>, cursor: int, ch: char, max_len: int)
    requires
        0 <= cursor <= input.len(),
        input.len() < max_len,
    ensures
        spec_delete_char(spec_add_char(input, cursor, ch, max_len).0, spec_add_char(input, cursor, ch, max_len).1)
            == (input, cursor),
{
    let k = if cursor < input.len() {
        cursor
    } else {
        input.len() as int
    };
    assert(k == cursor);
    assert(input.insert(k, ch).remove(k) =~= input);
}

/// Inserts `ch` before the character at index `cursor` (at the end when the
/// cursor is past it) and advances the cursor, unless `input` already holds
/// `max_len` characters.
pub fn add_char(input: &mut String, cursor: &mut usize, ch: char, max_len: usize)
    requires
        old(input)@.len() < max_len ==> *old(cursor) < usize::MAX,
    ensures
        (final(input)@, *final(cursor) as int) == spec_add_char(old(input)@, *old(cursor) as int, ch, max_len as int),
{
    let mut cs = chars_of(input.as_str());
    if cs.len() >= max_len {
        return;
    }
    let k = if *cursor < cs.len() {
        *cursor
    } else {
        cs.len()
    };
    cs.insert(k, ch);
    *input = string_of(cs.as_slice());
    *cursor = *cursor + 1;
}

/// Deletes the character before the cursor and moves the cursor back, as
/// [`spec_delete_char`] says.
pub fn delete_char(input: &mut String, cursor: &mut usize)
    requires
        *old(cursor) > 0 && old(input)@.len() > 0 ==> *old(cursor) <= old(input)@.len(),
    ensures
        (final(input)@, *final(cursor) as int) == spec_delete_char(old(input)@, *old(cursor) as int),
{
    if *cursor == 0 || input.as_str().is_empty() {
        return;
    }
    let mut cs = chars_of(input.as_str());
    cs.remove(*cursor - 1);
    *input = string_of(cs.as_slice());
    *cursor = *cursor - 1;
}

/// Deletes from the cursor back to the start of the previous word: trailing
/// whitespace first, then the word. Does nothing at position 0.
pub fn delete_word(input: &mut String, cursor: &mut usize)
    requires
        *old(cursor) <= old(input)@.len(),
    ensures
        ({
            let c = *old(cursor) as int;
            let w = word_start(old(input)@, c);
            &&& final(input)@ == old(input)@.take(w) + old(input)@.skip(c)
            &&& *final(cursor) == w
        }),
{
    let ghost s = input@;
    let cs = chars_of(input.as_str());
    let total = *cursor;
    if total == 0 {
        assert(s.take(0) + s.skip(0) =~= s);
        return;
    }
    let mut new_cursor = total;
    while new_cursor > 0 && char_is_whitespace(cs[new_cursor - 1])
        invariant
            cs@ == s,
            total <= s.len(),
            new_cursor <= total,
            skip_space_back(s, total as int) == skip_space_back(s, new_cursor as int),
        decreases new_cursor,
    {
        new_cursor = new_cursor - 1;
    }
    let ghost after_space = new_cursor as int;
    while new_cursor > 0 && !char_is_whitespace(cs[new_cursor - 1])
        invariant
            cs@ == s,
            total <= s.len(),
            new_cursor <= total,
            after_space == skip_space_back(s, total as int),
            skip_word_back(s, after_space) == skip_word_back(s, new_cursor as int),
        decreases new_cursor,
    {
        new_cursor = new_cursor - 1;
    }
    if new_cursor == total {
        assert(s.take(total as int) + s.skip(total as int) =~= s);
        return;
    }
    let mut out: Vec<char> = Vec::new();
    let mut i: usize = 0;
    while i < new_cursor
        invariant
            cs@ == s,
            new_cursor <= total <= s.len(),
            i <= new_cursor,
            out@ == s.take(i as int),
        decreases new_cursor - i,
    {
        out.push(cs[i]);
        assert(s.take(i + 1) =~= s.take(i as int).push(s[i as int]));
        i = i + 1;
    }
    let mut j: usize = total;
    while j < cs.len()
        invariant
            cs@ == s,
            new_cursor <= total <= j <= s.len(),
            out@ == s.take(new_cursor as int) + s.subrange(total as int, j as int),
        decreases s.len() - j,
    {
        out.push(cs[j]);
        assert(s.subrange(total as int, j + 1) =~= s.subrange(total as int, j as int).push(s[j as int]));
        j = j + 1;
    }
    assert(s.subrange(total as int, s.len() as int) =~= s.skip(total as int));
    *input = string_of(out.as_slice());
    *cursor = new_cursor;
}

/// Empties the input and moves the cursor to 0.
pub fn clear_input(input: &mut String, cursor: &mut usize)
    ensures
        final(input)@ == Seq::<char>::empty(),
        *final(cursor) == 0,
{
    *input = String::new();
    *cursor = 0;
}

/// Typing a printable character without Ctrl or Alt inserts it, whatever
/// the key and whether Shift is held; with Ctrl or Alt held nothing is
/// inserted.
pub proof fn law_typing_inserts(ctrl: bool, alt: bool, shift: bool, key: u32, ch: u32)
    ensures
        vstd::utf8::is_scalar(ch) && !spec_is_control(ch as char) && !ctrl && !alt ==> spec_classify(
            ctrl,
            alt,
            shift,
            key,
            ch,
        ) == KeyAction::InsertChar(ch as char),
        (ctrl || alt) ==> !(spec_classify(ctrl, alt, shift, key, ch) is InsertChar),
        !vstd::utf8::is_scalar(ch) || spec_is_control(ch as char) ==> !(spec_classify(ctrl, alt, shift, key, ch) is InsertChar),
{
}

/// The keys that do not type a character, by their evdev codes: Backspace
/// (14) deletes a character, or with Ctrl a word, as does Ctrl+W (17);
/// Ctrl+U (22) clears the input and Ctrl+V (47) pastes; Left (105) and
/// Right (106) move the cursor or the selection; Up (103) and Shift+Tab (15)
/// select the result above, Down (108) and Tab the one below; Home (102)
/// goes back to the top; Page Up (104) and Page Down (109) move by a page;
/// Escape (1) closes; Enter (28) and keypad Enter (96) submit.
pub proof fn law_key_bindings(ctrl: bool, alt: bool, shift: bool, key: u32, ch: u32)
    requires
        !(printable(ch) is Some && !ctrl && !alt),
    ensures
        key == 14 && !ctrl ==> spec_classify(ctrl, alt, shift, key, ch) == KeyAction::DeleteChar,
        key == 14 && ctrl ==> spec_classify(ctrl, alt, shift, key, ch) == KeyAction::DeleteWord,
        key == 17 && ctrl ==> spec_classify(ctrl, alt, shift, key, ch) == KeyAction::DeleteWord,
        key == 22 && ctrl ==> spec_classify(ctrl, alt, shift, key, ch) == KeyAction::ClearInput,
        key == 47 && ctrl ==> spec_classify(ctrl, alt, shift, key, ch) == KeyAction::Paste,
        key == 105 ==> spec_classify(ctrl, alt, shift, key, ch) == KeyAction::PrevCursorOrResult,
        key == 106 ==> spec_classify(ctrl, alt, shift, key, ch) == KeyAction::NextCursorOrResult,
        key == 103 ==> spec_classify(ctrl, alt, shift, key, ch) == KeyAction::PrevResult,
        key == 15 && shift ==> spec_classify(ctrl, alt, shift, key, ch) == KeyAction::PrevResult,
        key == 108 ==> spec_classify(ctrl, alt, shift, key, ch) == KeyAction::NextResult,
        key == 15 && !shift ==> spec_classify(ctrl, alt, shift, key, ch) == KeyAction::NextResult,
        key == 102 ==> spec_classify(ctrl, alt, shift, key, ch) == KeyAction::ResetSelection,
        key == 104 ==> spec_classify(ctrl, alt, shift, key, ch) == KeyAction::PrevPage,
        key == 109 ==> spec_classify(ctrl, alt, shift, key, ch) == KeyAction::NextPage,
        key == 1 ==> spec_classify(ctrl, alt, shift, key, ch) == KeyAction::Close,
        key == 28 || key == 96 ==> spec_classify(ctrl, alt, shift, key, ch) == KeyAction::Submit,
{
}

} // verus!
