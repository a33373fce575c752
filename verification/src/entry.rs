//! The results list of the entry widget: which result is selected and which
//! page of results is shown, plus the plain values that style the widget.

use vstd::prelude::*;

verus! {

/// The shape of the text cursor.
#[derive(Debug, Clone, Copy, PartialEq, Eq, Structural)]
pub enum CursorStyle {
    /// Thin vertical bar (default).
    Bar,
    /// Full character-width filled block.
    Block,
    /// Horizontal underline.
    Underscore,
}

impl Default for CursorStyle {
    fn default() -> (r: Self)
        ensures
            r == CursorStyle::Bar,
    {
        CursorStyle::Bar
    }
}

/// Per-side insets in logical pixels; a negative value fills to the edge.
#[derive(Debug, Clone, Copy, PartialEq, Eq, Structural)]
pub struct Directional {
    pub top: i32,
    pub right: i32,
    pub bottom: i32,
    pub left: i32,
}

impl Default for Directional {
    fn default() -> (r: Self)
        ensures
            r == (Directional { top: 0, right: 0, bottom: 0, left: 0 }),
    {
        Directional { top: 0, right: 0, bottom: 0, left: 0 }
    }
}

/// The results shown by the widget and the position of the selection.
#[derive(Debug, Clone)]
pub struct Selection {
    /// The results, in order.
    pub results: Vec<String>,
    /// Index of the selected result within the shown page.
    pub selection: usize,
    /// Index of the first result shown.
    pub first_result: usize,
    /// How many results the last drawing showed.
    pub num_results_drawn: usize,
    /// How many results the page before showed, for moving back.
    pub last_num_results_drawn: usize,
}

/// The number of results that one step of the selection moves within:
/// those shown, but at least one.
pub open spec fn page_size(drawn: int, len: int) -> int {
    let m = if drawn < len { drawn } else { len };
    if m < 1 { 1 } else { m }
}

/// The plain values of a selection: the number of results and the four positions.
pub ghost struct SelectionState {
    pub len: int,
    pub selection: int,
    pub first_result: int,
    pub drawn: int,
    pub last_drawn: int,
}

/// The state after moving the selection one down.
pub open spec fn next_state(s: SelectionState) -> SelectionState {
    let nsel = page_size(s.drawn, s.len);
    if s.selection + 1 >= nsel {
        SelectionState {
            selection: s.selection + 1 - nsel,
            first_result: if s.len > 0 { (s.first_result + nsel) % s.len } else { 0 },
            last_drawn: s.drawn,
            ..s
        }
    } else {
        SelectionState { selection: s.selection + 1, ..s }
    }
}

/// The state after moving the selection one up.
pub open spec fn prev_state(s: SelectionState) -> SelectionState {
    let nsel = page_size(s.drawn, s.len);
    if s.selection > 0 {
        SelectionState { selection: s.selection - 1, ..s }
    } else if s.first_result > nsel {
        SelectionState {
            first_result: s.first_result - s.last_drawn,
            selection: if s.last_drawn > 0 { s.last_drawn - 1 } else { 0 },
            ..s
        }
    } else if s.first_result > 0 {
        SelectionState { selection: s.first_result - 1, first_result: 0, ..s }
    } else {
        s
    }
}

/// The state after showing the next page.
pub open spec fn next_page_state(s: SelectionState) -> SelectionState {
    let next = s.first_result + s.drawn;
    SelectionState {
        first_result: if next >= s.len { 0 } else { next },
        selection: 0,
        last_drawn: s.drawn,
        ..s
    }
}

/// The state after showing the previous page.
pub open spec fn prev_page_state(s: SelectionState) -> SelectionState {
    SelectionState {
        first_result: if s.first_result >= s.last_drawn { s.first_result - s.last_drawn } else { 0 },
        selection: 0,
        last_drawn: s.drawn,
        ..s
    }
}

/// Moving down and then up again comes back to the same state, as long as
/// the first move stays on the shown page.
pub proof fn law_prev_undoes_next(s: SelectionState)
    requires
        0 <= s.selection,
        s.selection + 1 < page_size(s.drawn, s.len),
    ensures
        prev_state(next_state(s)) == s,
{
}

/// Moving down keeps the selection on the shown page and the first shown
/// result among the results.
pub proof fn law_next_stays_in_range(s: SelectionState)
    requires
        0 <= s.selection < page_size(s.drawn, s.len),
        0 <= s.first_result,
        s.len > 0 ==> s.first_result < s.len,
    ensures
        0 <= next_state(s).selection < page_size(next_state(s).drawn, next_state(s).len),
        0 <= next_state(s).first_result,
        s.len > 0 ==> next_state(s).first_result < s.len,
        s.len == 0 ==> next_state(s).first_result == 0 || next_state(s).first_result == s.first_result,
{
}

/// Paging forward and back always selects the top of the page, and paging
/// forward never shows a page past the results.
pub proof fn law_pages_select_top(s: SelectionState)
    requires
        0 <= s.first_result,
        0 <= s.drawn,
        0 <= s.last_drawn,
    ensures
        next_page_state(s).selection == 0,
        prev_page_state(s).selection == 0,
        next_page_state(s).first_result == 0 || next_page_state(s).first_result < s.len,
        0 <= prev_page_state(s).first_result <= s.first_result,
{
}

impl Selection {
    /// The plain values of the selection.
    pub open spec fn state(&self) -> SelectionState {
        SelectionState {
            len: self.results@.len() as int,
            selection: self.selection as int,
            first_result: self.first_result as int,
            drawn: self.num_results_drawn as int,
            last_drawn: self.last_num_results_drawn as int,
        }
    }

    /// A selection over `results`, at the first result, with nothing drawn yet.
    pub fn new(results: Vec<String>) -> (s: Self)
        ensures
            s.results@ == results@,
            s.selection == 0,
            s.first_result == 0,
            s.num_results_drawn == 0,
            s.last_num_results_drawn == 0,
    {
        Selection { results, selection: 0, first_result: 0, num_results_drawn: 0, last_num_results_drawn: 0 }
    }

    /// Selects the first result and scrolls back to the top.
    pub fn reset_selection(&mut self)
        ensures
            final(self).results@ == old(self).results@,
            final(self).state() == (SelectionState { selection: 0, first_result: 0, ..old(self).state() }),
    {
        self.selection = 0;
        self.first_result = 0;
    }

    /// Moves the selection one down; past the end of the shown page, it goes
    /// to the top of the next page, and after the last page back to the first.
    pub fn select_next(&mut self)
        requires
            old(self).selection < usize::MAX,
            old(self).selection + 1 >= page_size(
                old(self).num_results_drawn as int,
                old(self).results@.len() as int,
            ) ==> old(self).first_result + page_size(
                old(self).num_results_drawn as int,
                old(self).results@.len() as int,
            ) <= usize::MAX,
        ensures
            final(self).results@ == old(self).results@,
            final(self).state() == next_state(old(self).state()),
    {
        let n = self.results.len();
        let m = if self.num_results_drawn < n { self.num_results_drawn } else { n };
        let nsel = if m < 1 { 1 } else { m };
        self.selection = self.selection + 1;
        if self.selection >= nsel {
            self.selection = self.selection - nsel;
            if n > 0 {
                self.first_result = (self.first_result + nsel) % n;
            } else {
                self.first_result = 0;
            }
            self.last_num_results_drawn = self.num_results_drawn;
        }
    }

    /// Moves the selection one up; at the top of the shown page, it goes back
    /// to the previous page, and at the very first result nothing changes.
    pub fn select_prev(&mut self)
        requires
            old(self).selection == 0 && old(self).first_result > page_size(
                old(self).num_results_drawn as int,
                old(self).results@.len() as int,
            ) ==> old(self).last_num_results_drawn <= old(self).first_result,
        ensures
            final(self).results@ == old(self).results@,
            final(self).state() == prev_state(old(self).state()),
    {
        if self.selection > 0 {
            self.selection = self.selection - 1;
            return;
        }
        let n = self.results.len();
        let m = if self.num_results_drawn < n { self.num_results_drawn } else { n };
        let nsel = if m < 1 { 1 } else { m };
        if self.first_result > nsel {
            self.first_result = self.first_result - self.last_num_results_drawn;
            self.selection = if self.last_num_results_drawn > 0 {
                self.last_num_results_drawn - 1
            } else {
                0
            };
        } else if self.first_result > 0 {
            self.selection = self.first_result - 1;
            self.first_result = 0;
        }
    }

    /// Shows the next page, or the first one after the last; selects its top.
    pub fn select_next_page(&mut self)
        requires
            old(self).first_result + old(self).num_results_drawn <= usize::MAX,
        ensures
            final(self).results@ == old(self).results@,
            final(self).state() == next_page_state(old(self).state()),
    {
        self.first_result = self.first_result + self.num_results_drawn;
        if self.first_result >= self.results.len() {
            self.first_result = 0;
        }
        self.selection = 0;
        self.last_num_results_drawn = self.num_results_drawn;
    }

    /// Shows the previous page, or the first one; selects its top.
    pub fn select_prev_page(&mut self)
        ensures
            final(self).results@ == old(self).results@,
            final(self).state() == prev_page_state(old(self).state()),
    {
        if self.first_result >= self.last_num_results_drawn {
            self.first_result = self.first_result - self.last_num_results_drawn;
        } else {
            self.first_result = 0;
        }
        self.selection = 0;
        self.last_num_results_drawn = self.num_results_drawn;
    }
}

// ── Drawing the results ─────────────────────────────────────────────────────

/// How many results are drawn at most: all of them when the theme fixes no
/// number (0), else the number it fixes.
pub open spec fn spec_result_cap(num_results: u32, n_results: usize) -> usize {
    if num_results == 0 {
        n_results
    } else {
        num_results as usize
    }
}

/// The most results drawn, as [`spec_result_cap`] says.
pub fn result_cap(num_results: u32, n_results: usize) -> (r: usize)
    ensures
        r == spec_result_cap(num_results, n_results),
{
    if num_results == 0 {
        n_results
    } else {
        num_results as usize
    }
}

/// The text style a drawn result gets.
#[derive(Debug, Clone, Copy, PartialEq, Eq, Structural)]
pub enum ResultStyle {
    /// The selected result.
    Selection,
    /// A result at an odd index of the list.
    Alternate,
    /// A result at an even index.
    Default,
}

/// The style of the `i`-th drawn result, the `first + i`-th of the list,
/// when `selection` is the index of the selected one among those drawn.
pub open spec fn spec_result_style(i: int, first: int, selection: int) -> ResultStyle {
    if i == selection {
        ResultStyle::Selection
    } else if (i + first) % 2 == 1 {
        ResultStyle::Alternate
    } else {
        ResultStyle::Default
    }
}

/// The style of a drawn result, as [`spec_result_style`] says.
pub fn result_style(i: usize, first: usize, selection: usize) -> (r: ResultStyle)
    requires
        i + first <= usize::MAX,
    ensures
        r == spec_result_style(i as int, first as int, selection as int),
{
    if i == selection {
        ResultStyle::Selection
    } else if (i + first) % 2 == 1 {
        ResultStyle::Alternate
    } else {
        ResultStyle::Default
    }
}

} // verus!
