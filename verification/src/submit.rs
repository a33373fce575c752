//! Ordering candidates by how often they were chosen before.

use vstd::prelude::*;

use crate::chars::trim;
use crate::drun::{exec_command, expand_field_codes, DesktopEntry, DesktopEntryView};
use crate::settings::LaunchMode;
use crate::theme::Anchor;
use crate::history::{entry_view, AppHistory, EntryView};
use crate::sorting::{
    is_sorted_by, lemma_stable_sort_map_on, lemma_stable_sort_permutes, lemma_stable_sort_sorted, sort_stable,
    stable_sort, total_preorder,
};
use crate::text::{chars_of, string_of, string_views};

verus! {

/// The score of `name` in a history: the run count of the last entry with
/// that name, as an `i32`, or 0 when there is none.
pub open spec fn history_score(h: Seq<EntryView>, name: Seq<char>) -> i32
    decreases h.len(),
{
    if h.len() == 0 {
        0
    } else if h.last().0 == name {
        h.last().1 as i32
    } else {
        history_score(h.drop_last(), name)
    }
}

/// Names ordered by their score in `h`, highest first.
pub open spec fn history_order(h: Seq<EntryView>) -> spec_fn(Seq<char>, Seq<char>) -> bool {
    |a: Seq<char>, b: Seq<char>| history_score(h, a) >= history_score(h, b)
}

/// Desktop entries ordered by the score of their name in `h`, highest first.
pub open spec fn entry_history_order(h: Seq<EntryView>) -> spec_fn(DesktopEntryView, DesktopEntryView) -> bool {
    |a: DesktopEntryView, b: DesktopEntryView| history_score(h, a.name) >= history_score(h, b.name)
}

/// The plain values of each desktop entry.
pub open spec fn desktop_views(v: Seq<DesktopEntry>) -> Seq<DesktopEntryView> {
    v.map_values(|e: DesktopEntry| e.view())
}

/// Whether `a` and `b` hold the same characters.
fn same_text(a: &str, b: &str) -> (r: bool)
    ensures
        r == (a@ == b@),
{
    let x = chars_of(a);
    let y = chars_of(b);
    crate::chars::eq_chars(x.as_slice(), y.as_slice())
}

/// The score of `name` in `hist`, as [`history_score`] says.
fn score_of(hist: &AppHistory, name: &str) -> (r: i32)
    ensures
        r == history_score(hist@, name@),
{
    let es = hist.entries();
    let mut i = es.len();
    proof {
        assert(hist@.take(i as int) =~= hist@);
    }
    while i > 0
        invariant
            i <= es@.len(),
            crate::history::entry_views(es@) == hist@,
            history_score(hist@, name@) == history_score(hist@.take(i as int), name@),
        decreases i,
    {
        let e = &es[i - 1];
        proof {
            assert(hist@[i - 1] == entry_view(es@[i - 1]));
            assert(hist@.take(i as int).drop_last() =~= hist@.take(i - 1));
        }
        if same_text(e.name.as_str(), name) {
            return e.run_count as i32;
        }
        i = i - 1;
    }
    0
}

/// The text of a scored string.
pub open spec fn pair_text() -> spec_fn((i32, String)) -> Seq<char> {
    |p: (i32, String)| p.1@
}

/// The plain values of a scored desktop entry.
pub open spec fn pair_entry() -> spec_fn((i32, DesktopEntry)) -> DesktopEntryView {
    |p: (i32, DesktopEntry)| p.1.view()
}

/// Whether a scored string carries its score in `h`.
pub open spec fn text_scored(h: Seq<EntryView>) -> spec_fn((i32, String)) -> bool {
    |p: (i32, String)| p.0 == history_score(h, p.1@)
}

/// Whether a scored desktop entry carries the score of its name in `h`.
pub open spec fn entry_scored(h: Seq<EntryView>) -> spec_fn((i32, DesktopEntry)) -> bool {
    |p: (i32, DesktopEntry)| p.0 == history_score(h, p.1.name@)
}

/// Scored values ordered by score, highest first.
pub open spec fn score_desc<T>() -> spec_fn((i32, T), (i32, T)) -> bool {
    |a: (i32, T), b: (i32, T)| a.0 >= b.0
}

fn first_ge<T>(a: &(i32, T), b: &(i32, T)) -> (r: bool)
    ensures
        r == (a.0 >= b.0),
{
    a.0 >= b.0
}

/// Sorts command names by their run count in `hist`, highest first; names
/// with equal counts, and names not in the history (count 0), keep their order.
pub fn sort_by_history(items: &mut Vec<String>, hist: &AppHistory)
    ensures
        string_views(final(items)@) == stable_sort(string_views(old(items)@), history_order(hist@)),
{
    let ghost h = hist@;
    let ghost orig = items@;
    let mut rest: Vec<String> = Vec::new();
    std::mem::swap(&mut rest, items);
    let mut pairs: Vec<(i32, String)> = Vec::new();
    let ghost f = pair_text();
    let ghost good = text_scored(h);
    while rest.len() > 0
        invariant
            h == hist@,
            pairs@.len() + rest@.len() == orig.len(),
            rest@ == orig.skip(pairs@.len() as int),
            pairs@.map_values(pair_text()) == string_views(orig.take(pairs@.len() as int)),
            forall|i: int| 0 <= i < pairs@.len() ==> text_scored(h)(#[trigger] pairs@[i]),
        decreases rest@.len(),
    {
        let ghost k = pairs@.len() as int;
        let ghost old_pairs = pairs@;
        let s = rest.remove(0);
        let sc = score_of(hist, s.as_str());
        pairs.push((sc, s));
        proof {
            assert(s == orig[k]);
            assert(pairs@ == old_pairs.push((sc, s)));
            assert(pairs@.map_values(pair_text()) =~= old_pairs.map_values(pair_text()).push(s@));
            assert(orig.skip(k).drop_first() =~= orig.skip(k + 1));
            assert(orig.take(k + 1) =~= orig.take(k).push(orig[k]));
            assert(pairs@.map_values(pair_text()) =~= string_views(orig.take(k + 1)));
        }
    }
    proof {
        assert(orig.take(orig.len() as int) =~= orig);
    }
    let ghost before = pairs@;
    let ghost rel_e = score_desc::<String>();
    let mut sorted = sort_stable(pairs, Ghost(rel_e), first_ge);
    proof {
        lemma_stable_sort_map_on(before, f, history_order(h), rel_e, good);
    }
    let ghost target = sorted@.map_values(f);
    let mut out: Vec<String> = Vec::new();
    let ghost n = sorted@.len();
    let ghost all = sorted@;
    while sorted.len() > 0
        invariant
            all.map_values(pair_text()) == target,
            out@.len() + sorted@.len() == n,
            n == all.len(),
            sorted@ == all.skip(out@.len() as int),
            string_views(out@) == target.take(out@.len() as int),
        decreases sorted@.len(),
    {
        let ghost k = out@.len() as int;
        let p = sorted.remove(0);
        out.push(p.1);
        proof {
            assert(all.skip(k).drop_first() =~= all.skip(k + 1));
            assert(string_views(out@) =~= target.take(k + 1));
        }
    }
    proof {
        assert(target.take(n as int) =~= target);
    }
    *items = out;
}

/// Sorts desktop entries by the run count of their name in `hist`, highest
/// first; entries with equal counts keep their order.
pub fn sort_drun_by_history(entries: &mut Vec<DesktopEntry>, hist: &AppHistory)
    ensures
        desktop_views(final(entries)@) == stable_sort(desktop_views(old(entries)@), entry_history_order(hist@)),
{
    let ghost h = hist@;
    let ghost orig = entries@;
    let mut rest: Vec<DesktopEntry> = Vec::new();
    std::mem::swap(&mut rest, entries);
    let mut pairs: Vec<(i32, DesktopEntry)> = Vec::new();
    let ghost f = pair_entry();
    let ghost good = entry_scored(h);
    while rest.len() > 0
        invariant
            h == hist@,
            pairs@.len() + rest@.len() == orig.len(),
            rest@ == orig.skip(pairs@.len() as int),
            pairs@.map_values(pair_entry()) == desktop_views(orig.take(pairs@.len() as int)),
            forall|i: int| 0 <= i < pairs@.len() ==> entry_scored(h)(#[trigger] pairs@[i]),
        decreases rest@.len(),
    {
        let ghost k = pairs@.len() as int;
        let ghost old_pairs = pairs@;
        let e = rest.remove(0);
        let sc = score_of(hist, e.name.as_str());
        pairs.push((sc, e));
        proof {
            assert(e == orig[k]);
            assert(pairs@ == old_pairs.push((sc, e)));
            assert(pairs@.map_values(pair_entry()) =~= old_pairs.map_values(pair_entry()).push(e.view()));
            assert(orig.skip(k).drop_first() =~= orig.skip(k + 1));
            assert(orig.take(k + 1) =~= orig.take(k).push(orig[k]));
            assert(pairs@.map_values(pair_entry()) =~= desktop_views(orig.take(k + 1)));
        }
    }
    proof {
        assert(orig.take(orig.len() as int) =~= orig);
    }
    let ghost before = pairs@;
    let ghost rel_e = score_desc::<DesktopEntry>();
    let mut sorted = sort_stable(pairs, Ghost(rel_e), first_ge);
    proof {
        lemma_stable_sort_map_on(before, f, entry_history_order(h), rel_e, good);
    }
    let ghost target = sorted@.map_values(f);
    let mut out: Vec<DesktopEntry> = Vec::new();
    let ghost n = sorted@.len();
    let ghost all = sorted@;
    while sorted.len() > 0
        invariant
            all.map_values(pair_entry()) == target,
            out@.len() + sorted@.len() == n,
            n == all.len(),
            sorted@ == all.skip(out@.len() as int),
            desktop_views(out@) == target.take(out@.len() as int),
        decreases sorted@.len(),
    {
        let ghost k = out@.len() as int;
        let p = sorted.remove(0);
        out.push(p.1);
        proof {
            assert(all.skip(k).drop_first() =~= all.skip(k + 1));
            assert(desktop_views(out@) =~= target.take(k + 1));
        }
    }
    proof {
        assert(target.take(n as int) =~= target);
    }
    *entries = out;
}

/// Sorting by history puts names with higher run counts first and keeps every
/// name, as often as it occurred.
pub proof fn law_sort_by_history(names: Seq<Seq<char>>, h: Seq<EntryView>)
    ensures
        is_sorted_by(stable_sort(names, history_order(h)), history_order(h)),
        stable_sort(names, history_order(h)).to_multiset() == names.to_multiset(),
{
    assert(total_preorder(history_order(h)));
    lemma_stable_sort_sorted(names, history_order(h));
    lemma_stable_sort_permutes(names, history_order(h));
}

/// What choosing the selection leads to.
#[derive(Debug, Clone, Copy, PartialEq, Eq, Structural)]
pub enum SubmitChoice {
    /// Nothing is chosen; the launcher stays open.
    Nothing,
    /// The typed text itself is the choice.
    PrintInput,
    /// The result at this index is the choice.
    Result(usize),
}

/// What choosing leads to: with no results, nothing in the application mode
/// or when a match is required, else the typed text; with results, the
/// selected one (the last one when the selection lies past the end).
pub open spec fn spec_decide_submit(
    len: int,
    first_result: int,
    selection: int,
    mode: LaunchMode,
    require_match: bool,
) -> SubmitChoice {
    if len == 0 {
        if mode == LaunchMode::Drun || require_match {
            SubmitChoice::Nothing
        } else {
            SubmitChoice::PrintInput
        }
    } else {
        let i = first_result + selection;
        SubmitChoice::Result(if i < len - 1 { i as usize } else { (len - 1) as usize })
    }
}

/// Decides what choosing the selection leads to, as [`spec_decide_submit`] says.
pub fn decide_submit(
    results_len: usize,
    first_result: usize,
    selection: usize,
    mode: LaunchMode,
    require_match: bool,
) -> (c: SubmitChoice)
    requires
        results_len > 0 ==> first_result + selection <= usize::MAX,
    ensures
        c == spec_decide_submit(results_len as int, first_result as int, selection as int, mode, require_match),
        c matches SubmitChoice::Result(i) ==> i < results_len,
{
    if results_len == 0 {
        if mode == LaunchMode::Drun || require_match {
            SubmitChoice::Nothing
        } else {
            SubmitChoice::PrintInput
        }
    } else {
        let i = first_result + selection;
        SubmitChoice::Result(if i < results_len - 1 { i } else { results_len - 1 })
    }
}

/// With no results, choosing prints the typed text in the command and
/// line-picking modes unless a match is required, and does nothing in the
/// application mode or when a match is required; with results, it picks one
/// of them: the selected one, or the last one when the selection lies past
/// the end.
pub proof fn law_submit_without_results(len: int, first_result: int, selection: int, mode: LaunchMode, require_match: bool)
    requires
        0 <= len <= usize::MAX,
        first_result >= 0,
        selection >= 0,
        first_result + selection <= usize::MAX,
    ensures
        len == 0 ==> ((spec_decide_submit(len, first_result, selection, mode, require_match) == SubmitChoice::PrintInput)
            <==> ((mode == LaunchMode::Run || mode == LaunchMode::Dmenu) && !require_match)),
        len == 0 ==> ((spec_decide_submit(len, first_result, selection, mode, require_match) == SubmitChoice::Nothing)
            <==> (mode == LaunchMode::Drun || require_match)),
        len > 0 ==> (spec_decide_submit(len, first_result, selection, mode, require_match) matches SubmitChoice::Result(i)
            && i < len && (first_result + selection < len ==> i == first_result + selection) && (first_result
            + selection >= len ==> i == len - 1)),
{
}

/// The edges of the output that a layer surface is anchored to.
#[derive(Debug, Clone, Copy, PartialEq, Eq, Structural)]
pub struct LayerEdges {
    pub top: bool,
    pub bottom: bool,
    pub left: bool,
    pub right: bool,
}

/// The edges an anchor holds the window to: a corner its two edges, a side
/// that edge and the two next to it, the center none.
pub open spec fn spec_anchor_edges(a: Anchor) -> LayerEdges {
    match a {
        Anchor::TopLeft => LayerEdges { top: true, bottom: false, left: true, right: false },
        Anchor::Top => LayerEdges { top: true, bottom: false, left: true, right: true },
        Anchor::TopRight => LayerEdges { top: true, bottom: false, left: false, right: true },
        Anchor::Right => LayerEdges { top: true, bottom: true, left: false, right: true },
        Anchor::BottomRight => LayerEdges { top: false, bottom: true, left: false, right: true },
        Anchor::Bottom => LayerEdges { top: false, bottom: true, left: true, right: true },
        Anchor::BottomLeft => LayerEdges { top: false, bottom: true, left: true, right: false },
        Anchor::Left => LayerEdges { top: true, bottom: true, left: true, right: false },
        Anchor::Center => LayerEdges { top: false, bottom: false, left: false, right: false },
    }
}

/// The edges `anchor` holds the window to, as [`spec_anchor_edges`] says.
pub fn anchor_edges(anchor: Anchor) -> (e: LayerEdges)
    ensures
        e == spec_anchor_edges(anchor),
{
    match anchor {
        Anchor::TopLeft => LayerEdges { top: true, bottom: false, left: true, right: false },
        Anchor::Top => LayerEdges { top: true, bottom: false, left: true, right: true },
        Anchor::TopRight => LayerEdges { top: true, bottom: false, left: false, right: true },
        Anchor::Right => LayerEdges { top: true, bottom: true, left: false, right: true },
        Anchor::BottomRight => LayerEdges { top: false, bottom: true, left: false, right: true },
        Anchor::Bottom => LayerEdges { top: false, bottom: true, left: true, right: true },
        Anchor::BottomLeft => LayerEdges { top: false, bottom: true, left: true, right: false },
        Anchor::Left => LayerEdges { top: true, bottom: true, left: true, right: false },
        Anchor::Center => LayerEdges { top: false, bottom: false, left: false, right: false },
    }
}

pub open spec fn word_xterm() -> Seq<char> {
    seq!['x', 't', 'e', 'r', 'm']
}

/// The command line that launches `e`: its expanded `Exec` value, run in
/// `terminal` (`xterm` when none or an empty one is given) when the entry
/// asks for a terminal.
pub open spec fn spec_launch_line(e: DesktopEntryView, terminal: Option<Seq<char>>) -> Seq<char> {
    let cmd = trim(expand_field_codes(e.exec_line, e));
    if e.terminal {
        let term = match terminal {
            Some(t) => if t.len() > 0 { t } else { word_xterm() },
            None => word_xterm(),
        };
        term + seq![' '] + cmd
    } else {
        cmd
    }
}

/// The command line that launches `entry`, as [`spec_launch_line`] says.
pub fn launch_line(entry: &DesktopEntry, terminal: Option<&str>) -> (r: String)
    ensures
        r@ == spec_launch_line(
            entry.view(),
            match terminal {
                Some(t) => Some(t@),
                None => None,
            },
        ),
{
    let cmd = exec_command(entry);
    if entry.terminal {
        proof {
            reveal_strlit("xterm");
        }
        let mut line = match terminal {
            Some(t) => {
                if t.is_empty() {
                    chars_of("xterm")
                } else {
                    chars_of(t)
                }
            },
            None => chars_of("xterm"),
        };
        line.push(' ');
        let mut c = chars_of(cmd.as_str());
        line.append(&mut c);
        string_of(line.as_slice())
    } else {
        cmd
    }
}

} // verus!
