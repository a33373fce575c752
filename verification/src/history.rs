//! Selection history: how often each program was chosen.
//!
//! # File format
//!
//! One entry per line, `{run_count} {name}`, most-used first.

use vstd::prelude::*;

use crate::lexical::{lex_compare, lemma_lex_reflexive};
use crate::numbers::{decimal, lemma_decimal, lemma_parse_decimal, parse_unsigned, parse_unsigned_chars, push_decimal, is_digit};
use crate::settings::LaunchMode;
use crate::theme::{join_path, join_path_exec};
use crate::text::{chars_of, lemma_lines_from_line, lines_from, push_char, string_of, strip_cr, text_lines};

verus! {

/// One history entry seen as plain values: the name and the run count.
pub type EntryView = (Seq<char>, usize);

/// A single program in the history.
#[derive(Debug, Clone, PartialEq, Eq)]
pub struct AppHistoryEntry {
    /// Program name (or desktop entry id for drun mode).
    pub name: String,
    /// Number of times this program has been launched.
    pub run_count: usize,
}

/// The plain values of an entry.
pub open spec fn entry_view(e: AppHistoryEntry) -> EntryView {
    (e.name@, e.run_count)
}

/// The plain values of a list of entries.
pub open spec fn entry_views(s: Seq<AppHistoryEntry>) -> Seq<EntryView> {
    s.map_values(|e: AppHistoryEntry| entry_view(e))
}

/// In-memory history, most-used first.
#[derive(Debug, Default, Clone)]
pub struct AppHistory {
    entries: Vec<AppHistoryEntry>,
}

impl View for AppHistory {
    type V = Seq<EntryView>;

    closed spec fn view(&self) -> Seq<EntryView> {
        entry_views(self.entries@)
    }
}

/// The first index at or after `i` whose entry is named `name`.
pub open spec fn find_name_from(s: Seq<EntryView>, name: Seq<char>, i: int) -> Option<int>
    decreases s.len() - i,
{
    if i < 0 || i >= s.len() {
        None
    } else if s[i].0 == name {
        Some(i)
    } else {
        find_name_from(s, name, i + 1)
    }
}

/// The first index whose entry is named `name`.
pub open spec fn find_name(s: Seq<EntryView>, name: Seq<char>) -> Option<int> {
    find_name_from(s, name, 0)
}

/// How far an entry with run count `count` at index `j` moves up: past every
/// preceding entry with a smaller run count.
pub open spec fn bubble_to(s: Seq<EntryView>, j: int, count: usize) -> int
    decreases j,
{
    if j > 0 && j <= s.len() && count > s[j - 1].1 {
        bubble_to(s, j - 1, count)
    } else {
        j
    }
}

/// The history after choosing `name` once more.
pub open spec fn spec_add(s: Seq<EntryView>, name: Seq<char>) -> Seq<EntryView> {
    match find_name(s, name) {
        Some(i) => {
            let count = (s[i].1 + 1) as usize;
            s.remove(i).insert(bubble_to(s, i, count), (name, count))
        },
        None => s.push((name, 1usize)),
    }
}

/// The history without the first entry named `name`.
pub open spec fn spec_remove(s: Seq<EntryView>, name: Seq<char>) -> Seq<EntryView> {
    match find_name(s, name) {
        Some(i) => s.remove(i),
        None => s,
    }
}

pub proof fn lemma_find_name_from(s: Seq<EntryView>, name: Seq<char>, i: int)
    requires
        0 <= i,
    ensures
        find_name_from(s, name, i) matches Some(k) ==> i <= k < s.len() && s[k].0 == name && (
        forall|j: int| i <= j < k ==> s[j].0 != name),
        find_name_from(s, name, i) is None ==> forall|j: int| i <= j < s.len() ==> s[j].0 != name,
    decreases s.len() - i,
{
    if i < s.len() && s[i].0 != name {
        lemma_find_name_from(s, name, i + 1);
    }
}

pub proof fn lemma_bubble_to(s: Seq<EntryView>, j: int, count: usize)
    requires
        0 <= j <= s.len(),
    ensures
        0 <= bubble_to(s, j, count) <= j,
        forall|k: int| bubble_to(s, j, count) <= k < j ==> count > #[trigger] s[k].1,
        bubble_to(s, j, count) > 0 ==> count <= s[bubble_to(s, j, count) - 1].1,
    decreases j,
{
    if j > 0 && count > s[j - 1].1 {
        lemma_bubble_to(s, j - 1, count);
    }
}

/// Whether `a` and `b` hold the same characters.
fn str_eq(a: &str, b: &str) -> (r: bool)
    ensures
        r == (a@ == b@),
{
    let x = chars_of(a);
    let y = chars_of(b);
    lex_compare(x.as_slice(), y.as_slice()) == 0
}

impl AppHistory {
    /// An empty history.
    pub fn new() -> (h: Self)
        ensures
            h@ == Seq::<EntryView>::empty(),
    {
        let h = AppHistory { entries: Vec::new() };
        assert(h@ =~= Seq::<EntryView>::empty());
        h
    }

    /// The entries, most-used first.
    pub fn entries(&self) -> (r: &[AppHistoryEntry])
        ensures
            entry_views(r@) == self@,
    {
        self.entries.as_slice()
    }

    /// Index of the first entry named `name`.
    fn position(&self, name: &str) -> (r: Option<usize>)
        ensures
            r matches Some(i) ==> find_name(self@, name@) == Some(i as int),
            r is None ==> find_name(self@, name@) is None,
    {
        let mut i: usize = 0;
        while i < self.entries.len()
            invariant
                i <= self.entries@.len(),
                find_name(self@, name@) == find_name_from(self@, name@, i as int),
            decreases self.entries@.len() - i,
        {
            assert(self@[i as int] == entry_view(self.entries@[i as int]));
            if str_eq(self.entries[i].name.as_str(), name) {
                return Some(i);
            }
            i = i + 1;
        }
        None
    }

    /// Records one more choice of `name`: increments its run count and moves it
    /// up past entries with a smaller count, or appends it with a count of 1.
    pub fn add(&mut self, name: &str)
        requires
            find_name(old(self)@, name@) matches Some(i) ==> old(self)@[i].1 < usize::MAX,
        ensures
            final(self)@ == spec_add(old(self)@, name@),
    {
        let ghost s = self@;
        match self.position(name) {
            Some(i) => {
                proof {
                    lemma_find_name_from(s, name@, 0);
                }
                let mut e = self.entries.remove(i);
                let count = e.run_count + 1;
                e.run_count = count;
                let mut j = i;
                proof {
                    assert(e.name@ == name@);
                }
                while j > 0 && count > self.entries[j - 1].run_count
                    invariant
                        j <= i,
                        i < s.len(),
                        self.entries@.len() == s.len() - 1,
                        entry_views(self.entries@) == s.remove(i as int),
                        bubble_to(s, i as int, count) == bubble_to(s, j as int, count),
                    decreases j,
                {
                    assert(self.entries@[j - 1].run_count == s[j - 1].1) by {
                        assert(entry_views(self.entries@)[j - 1] == entry_view(self.entries@[j - 1]));
                        assert(s.remove(i as int)[j - 1] == s[j - 1]);
                    }
                    j = j - 1;
                }
                proof {
                    if j > 0 {
                        assert(entry_views(self.entries@)[j - 1] == entry_view(self.entries@[j - 1]));
                        assert(s.remove(i as int)[j - 1] == s[j - 1]);
                    }
                }
                self.entries.insert(j, e);
                assert(self@ =~= s.remove(i as int).insert(j as int, (name@, count)));
            },
            None => {
                self.entries.push(AppHistoryEntry { name: string_of(chars_of(name).as_slice()), run_count: 1 });
                assert(self@ =~= s.push((name@, 1usize)));
            },
        }
    }

    /// Removes the first entry named `name`, if any.
    pub fn remove(&mut self, name: &str)
        ensures
            final(self)@ == spec_remove(old(self)@, name@),
    {
        match self.position(name) {
            Some(i) => {
                proof {
                    lemma_find_name_from(old(self)@, name@, 0);
                }
                self.entries.remove(i);
                assert(self@ =~= old(self)@.remove(i as int));
            },
            None => {},
        }
    }
}

// ── Text form ────────────────────────────────────────────────────────────────

/// The index of the first space in `l`, at or after `i`.
pub open spec fn first_space_from(l: Seq<char>, i: int) -> Option<int>
    decreases l.len() - i,
{
    if i < 0 || i >= l.len() {
        None
    } else if l[i] == ' ' {
        Some(i)
    } else {
        first_space_from(l, i + 1)
    }
}

/// The entry a line describes: a run count before the first space, a
/// non-empty name after it.
pub open spec fn parse_line(l: Seq<char>) -> Option<EntryView> {
    match first_space_from(l, 0) {
        Some(k) => match parse_unsigned(l.take(k), usize::MAX as int) {
            Some(n) => if l.len() > k + 1 {
                Some((l.skip(k + 1), n as usize))
            } else {
                None
            },
            None => None,
        },
        None => None,
    }
}

/// The entries that a list of lines describes, skipping the other lines.
pub open spec fn parse_lines(ls: Seq<Seq<char>>) -> Seq<EntryView>
    decreases ls.len(),
{
    if ls.len() == 0 {
        Seq::empty()
    } else {
        match parse_line(ls[0]) {
            Some(e) => seq![e] + parse_lines(ls.drop_first()),
            None => parse_lines(ls.drop_first()),
        }
    }
}

/// The line that describes an entry, with its line feed.
pub open spec fn entry_line(e: EntryView) -> Seq<char> {
    decimal(e.1 as nat) + seq![' '] + e.0 + seq!['\n']
}

/// The text of a history: one line per entry, in order.
pub open spec fn history_text(s: Seq<EntryView>) -> Seq<char>
    decreases s.len(),
{
    if s.len() == 0 {
        Seq::empty()
    } else {
        entry_line(s[0]) + history_text(s.drop_first())
    }
}

pub proof fn lemma_history_text_push(s: Seq<EntryView>, e: EntryView)
    ensures
        history_text(s.push(e)) == history_text(s) + entry_line(e),
    decreases s.len(),
{
    if s.len() == 0 {
        assert(s.push(e).drop_first() =~= Seq::<EntryView>::empty());
        assert(history_text(s.push(e)) =~= entry_line(e) + history_text(Seq::<EntryView>::empty()));
        assert(history_text(s.push(e)) =~= history_text(s) + entry_line(e));
    } else {
        assert(s.push(e).drop_first() =~= s.drop_first().push(e));
        lemma_history_text_push(s.drop_first(), e);
        assert(history_text(s.push(e)) =~= history_text(s) + entry_line(e));
    }
}

/// The history that `text` describes, one entry per well-formed line.
pub fn parse_history(text: &str) -> (h: AppHistory)
    ensures
        h@ == parse_lines(text_lines(text@)),
{
    let cs = chars_of(text);
    let mut h = AppHistory::new();
    let mut cur: Vec<char> = Vec::new();
    let mut i: usize = 0;
    proof {
        assert(text@.subrange(0, text@.len() as int) =~= text@);
        assert(h@ + parse_lines(text_lines(text@)) =~= parse_lines(text_lines(text@)));
    }
    while i < cs.len()
        invariant
            cs@ == text@,
            i <= cs@.len(),
            h@ + parse_lines(lines_from(text@.subrange(i as int, text@.len() as int), cur@)) == parse_lines(
                text_lines(text@),
            ),
        decreases cs@.len() - i,
    {
        let c = cs[i];
        let ghost rest = text@.subrange(i as int, text@.len() as int);
        proof {
            assert(rest[0] == c);
            assert(rest.drop_first() =~= text@.subrange(i + 1, text@.len() as int));
        }
        if c == '\n' {
            if cur.len() > 0 && cur[cur.len() - 1] == '\r' {
                cur.pop();
            }
            let ghost line = cur@;
            let ghost before = h@;
            proof {
                lemma_parse_lines_cons(line, lines_from(rest.drop_first(), Seq::empty()));
            }
            match parse_line_exec(&cur) {
                Some(e) => {
                    h.entries.push(e);
                    assert(h@ =~= before + seq![parse_line(line)->Some_0]);
                },
                None => {},
            }
            cur = Vec::new();
            proof {
                assert(cur@ =~= Seq::<char>::empty());
            }
        } else {
            cur.push(c);
        }
        i = i + 1;
    }
    proof {
        assert(text@.subrange(i as int, text@.len() as int) =~= Seq::<char>::empty());
    }
    if cur.len() > 0 {
        let ghost before = h@;
        proof {
            lemma_parse_lines_cons(cur@, Seq::empty());
        }
        match parse_line_exec(&cur) {
            Some(e) => {
                h.entries.push(e);
                assert(h@ =~= before + seq![parse_line(cur@)->Some_0]);
            },
            None => {},
        }
        assert(parse_lines(Seq::<Seq<char>>::empty()) =~= Seq::<EntryView>::empty());
    } else {
        assert(h@ + parse_lines(Seq::<Seq<char>>::empty()) =~= h@);
    }
    h
}

/// Parsing a list that starts with `l` parses `l`, then the rest.
proof fn lemma_parse_lines_cons(l: Seq<char>, rest: Seq<Seq<char>>)
    ensures
        parse_lines(seq![l] + rest) == (match parse_line(l) {
            Some(e) => seq![e],
            None => Seq::empty(),
        }) + parse_lines(rest),
{
    let ls = seq![l] + rest;
    assert(ls[0] == l);
    assert(ls.drop_first() =~= rest);
    match parse_line(l) {
        Some(e) => {},
        None => {
            assert(Seq::<EntryView>::empty() + parse_lines(rest) =~= parse_lines(rest));
        },
    }
}

/// The entry one line describes, as [`parse_line`] says.
fn parse_line_exec(l: &Vec<char>) -> (r: Option<AppHistoryEntry>)
    ensures
        r matches Some(e) ==> parse_line(l@) == Some(entry_view(e)),
        r is None ==> parse_line(l@) is None,
{
    let mut k: usize = 0;
    while k < l.len() && l[k] != ' '
        invariant
            k <= l@.len(),
            first_space_from(l@, 0) == first_space_from(l@, k as int),
        decreases l@.len() - k,
    {
        k = k + 1;
    }
    if k == l.len() {
        return None;
    }
    let count_part = l.as_slice().split_at(k).0;
    proof {
        assert(count_part@ =~= l@.take(k as int));
    }
    match parse_unsigned_chars(count_part, usize::MAX as u64) {
        Some(n) => {
            if l.len() > k + 1 {
                let mut name: Vec<char> = Vec::new();
                let mut j: usize = k + 1;
                while j < l.len()
                    invariant
                        k + 1 <= j <= l@.len(),
                        name@ == l@.subrange(k + 1, j as int),
                    decreases l@.len() - j,
                {
                    name.push(l[j]);
                    assert(name@ =~= l@.subrange(k + 1, j + 1));
                    j = j + 1;
                }
                assert(name@ =~= l@.skip(k + 1));
                Some(AppHistoryEntry { name: string_of(name.as_slice()), run_count: n as usize })
            } else {
                None
            }
        },
        None => None,
    }
}

/// The text of `history`: one `{run_count} {name}` line per entry, in order.
pub fn format_history(history: &AppHistory) -> (t: String)
    ensures
        t@ == history_text(history@),
{
    let mut t = String::new();
    let mut i: usize = 0;
    proof {
        assert(history@.take(0) =~= Seq::<EntryView>::empty());
    }
    while i < history.entries.len()
        invariant
            i <= history@.len(),
            history@.len() == history.entries@.len(),
            t@ == history_text(history@.take(i as int)),
        decreases history@.len() - i,
    {
        let e = &history.entries[i];
        push_decimal(&mut t, e.run_count as u64);
        push_char(&mut t, ' ');
        let name = chars_of(e.name.as_str());
        let mut j: usize = 0;
        let ghost before = t@;
        while j < name.len()
            invariant
                j <= name@.len(),
                t@ == before + name@.take(j as int),
            decreases name@.len() - j,
        {
            push_char(&mut t, name[j]);
            assert(name@.take(j + 1) =~= name@.take(j as int).push(name@[j as int]));
            j = j + 1;
        }
        push_char(&mut t, '\n');
        proof {
            assert(history@[i as int] == entry_view(history.entries@[i as int]));
            assert(history@.take(i + 1) =~= history@.take(i as int).push(history@[i as int]));
            lemma_history_text_push(history@.take(i as int), history@[i as int]);
            assert(name@.take(name@.len() as int) =~= name@);
            assert(t@ =~= history_text(history@.take(i as int)) + entry_line(history@[i as int]));
        }
        i = i + 1;
    }
    assert(history@.take(i as int) =~= history@);
    t
}

// ── Laws ─────────────────────────────────────────────────────────────────────

/// Whether a name can be written on a history line and read back unchanged:
/// non-empty, without line feeds, not ending in a carriage return.
pub open spec fn storable_name(name: Seq<char>) -> bool {
    &&& name.len() > 0
    &&& forall|i: int| 0 <= i < name.len() ==> name[i] != '\n'
    &&& name.last() != '\r'
}

/// Reading a line that ends at a line feed and holds none before it.
/// The first space of a history line is the one after the run count.
proof fn lemma_first_space(d: Seq<char>, name: Seq<char>, i: int)
    requires
        0 <= i <= d.len(),
        forall|k: int| 0 <= k < d.len() ==> is_digit(#[trigger] d[k]),
    ensures
        first_space_from(d + seq![' '] + name, i) == Some(d.len() as int),
    decreases d.len() - i,
{
    let l = d + seq![' '] + name;
    if i < d.len() {
        assert(l[i] == d[i]);
        assert(is_digit(d[i]));
        lemma_first_space(d, name, i + 1);
    } else {
        assert(l[i] == ' ');
    }
}

/// A history whose names are all storable reads back from its text unchanged.
pub proof fn law_history_text_roundtrip(s: Seq<EntryView>)
    requires
        forall|i: int| 0 <= i < s.len() ==> storable_name(#[trigger] s[i].0),
    ensures
        parse_lines(text_lines(history_text(s))) == s,
    decreases s.len(),
{
    if s.len() == 0 {
        assert(text_lines(Seq::<char>::empty()) =~= Seq::<Seq<char>>::empty());
    } else {
        let e = s[0];
        let d = decimal(e.1 as nat);
        let w = d + seq![' '] + e.0;
        let rest = history_text(s.drop_first());
        assert(storable_name(s[0].0));
        lemma_decimal(e.1 as nat);
        assert forall|i: int| 0 <= i < w.len() implies w[i] != '\n' by {
            if i < d.len() {
                assert(is_digit(d[i]));
            } else if i > d.len() {
                assert(w[i] == e.0[i - d.len() - 1]);
            }
        }
        assert(history_text(s) =~= w + seq!['\n'] + rest);
        lemma_lines_from_line(w, rest, Seq::empty());
        assert(Seq::<char>::empty() + w =~= w);
        assert(w.last() == e.0.last());
        assert(strip_cr(w) == w);
        lemma_first_space(d, e.0, 0);
        assert(w.take(d.len() as int) =~= d);
        assert(w.skip(d.len() as int + 1) =~= e.0);
        lemma_parse_decimal(e.1 as nat, usize::MAX as int);
        assert(parse_line(w) == Some(e));
        lemma_parse_lines_cons(w, text_lines(rest));
        assert forall|i: int| 0 <= i < s.drop_first().len() implies storable_name(
            #[trigger] s.drop_first()[i].0,
        ) by {
            assert(s.drop_first()[i] == s[i + 1]);
        }
        law_history_text_roundtrip(s.drop_first());
        assert(seq![e] + s.drop_first() =~= s);
    }
}

/// Choosing a program keeps a history ordered most-used first, as long as no
/// run count is zero.
pub proof fn law_add_keeps_order(s: Seq<EntryView>, name: Seq<char>)
    requires
        forall|i: int, j: int| 0 <= i < j < s.len() ==> s[i].1 >= s[j].1,
        forall|i: int| 0 <= i < s.len() ==> s[i].1 >= 1,
        find_name(s, name) matches Some(i) ==> s[i].1 < usize::MAX,
    ensures
        forall|i: int, j: int|
            0 <= i < j < spec_add(s, name).len() ==> spec_add(s, name)[i].1 >= spec_add(s, name)[j].1,
{
    lemma_find_name_from(s, name, 0);
    let t = spec_add(s, name);
    match find_name(s, name) {
        Some(i) => {
            let count = (s[i].1 + 1) as usize;
            let p = bubble_to(s, i, count);
            lemma_bubble_to(s, i, count);
            let r = s.remove(i);
            assert forall|a: int, b: int| 0 <= a < b < t.len() implies t[a].1 >= t[b].1 by {
                // positions in t: [0, p) from s, p the moved entry, (p, i] from s[p..i), after i from s[i+1..]
                let sa = if a < p { a } else if a == p { -1 } else if a <= i { a - 1 } else { a };
                let sb = if b < p { b } else if b == p { -1 } else if b <= i { b - 1 } else { b };
                if a == p {
                    assert(t[a].1 == count);
                    assert(t[b] == s[sb]);
                    if b <= i {
                        assert(count > s[sb].1);
                    } else {
                        assert(s[i].1 >= s[sb].1);
                    }
                } else if b == p {
                    assert(t[b].1 == count);
                    assert(t[a] == s[sa]);
                    assert(count <= s[p - 1].1);
                    if sa < p - 1 {
                        assert(s[sa].1 >= s[p - 1].1);
                    }
                } else {
                    assert(t[a] == s[sa]);
                    assert(t[b] == s[sb]);
                }
            }
        },
        None => {
            assert forall|a: int, b: int| 0 <= a < b < t.len() implies t[a].1 >= t[b].1 by {
                if b == s.len() {
                    assert(t[a] == s[a]);
                } else {
                    assert(t[a] == s[a] && t[b] == s[b]);
                }
            }
        },
    }
}

/// Choosing a program keeps the names of a history distinct.
pub proof fn law_add_keeps_names_distinct(s: Seq<EntryView>, name: Seq<char>)
    requires
        forall|i: int, j: int| 0 <= i < j < s.len() ==> s[i].0 != s[j].0,
    ensures
        forall|i: int, j: int|
            0 <= i < j < spec_add(s, name).len() ==> spec_add(s, name)[i].0 != spec_add(s, name)[j].0,
{
    lemma_find_name_from(s, name, 0);
    let t = spec_add(s, name);
    match find_name(s, name) {
        Some(i) => {
            let count = (s[i].1 + 1) as usize;
            let p = bubble_to(s, i, count);
            lemma_bubble_to(s, i, count);
            let r = s.remove(i);
            assert forall|a: int, b: int| 0 <= a < b < t.len() implies t[a].0 != t[b].0 by {
                let sa = if a < p { a } else if a == p { i } else if a <= i { a - 1 } else { a };
                let sb = if b < p { b } else if b == p { i } else if b <= i { b - 1 } else { b };
                assert(t[a].0 == s[sa].0);
                assert(t[b].0 == s[sb].0);
                assert(sa != sb);
            }
        },
        None => {
            assert forall|a: int, b: int| 0 <= a < b < t.len() implies t[a].0 != t[b].0 by {
                if b == s.len() {
                    assert(t[a] == s[a]);
                } else {
                    assert(t[a] == s[a] && t[b] == s[b]);
                }
            }
        },
    }
}

/// Where choosing a program puts its entry, in a history ordered most-used
/// first: a new name goes last with a count of 1; a known name, its count one
/// higher, goes after every other entry with at least that count and before
/// every entry with less, and the other entries keep their counts and order.
pub proof fn law_add_places_entry(s: Seq<EntryView>, name: Seq<char>)
    requires
        forall|i: int, j: int| 0 <= i < j < s.len() ==> s[i].1 >= s[j].1,
        find_name(s, name) matches Some(i) ==> s[i].1 < usize::MAX,
    ensures
        find_name(s, name) is None ==> spec_add(s, name) == s.push((name, 1usize)),
        find_name(s, name) matches Some(i) ==> ({
            let count = (s[i].1 + 1) as usize;
            let t = spec_add(s, name);
            exists|p: int|
                0 <= p < t.len() && #[trigger] t[p] == (name, count) && t.remove(p) == s.remove(i) && (forall|
                    k: int,
                | 0 <= k < p ==> t[k].1 >= count) && (forall|k: int| p < k < t.len() ==> t[k].1 < count)
        }),
{
    lemma_find_name_from(s, name, 0);
    match find_name(s, name) {
        Some(i) => {
            let count = (s[i].1 + 1) as usize;
            let t = spec_add(s, name);
            let p = bubble_to(s, i, count);
            lemma_bubble_to(s, i, count);
            let r = s.remove(i);
            assert(t.remove(p) =~= r);
            assert forall|k: int| 0 <= k < p implies t[k].1 >= count by {
                assert(t[k] == s[k]);
                assert(count <= s[p - 1].1);
                if k < p - 1 {
                    assert(s[k].1 >= s[p - 1].1);
                }
            }
            assert forall|k: int| p < k < t.len() implies t[k].1 < count by {
                if k <= i {
                    assert(t[k] == s[k - 1]);
                } else {
                    assert(t[k] == s[k]);
                    assert(s[i].1 >= s[k].1);
                }
            }
            assert(t[p] == (name, count));
        },
        None => {},
    }
}

/// After choosing `name`, exactly one more choice of it is recorded: its run
/// count goes up by one, or it appears with a count of 1.
pub proof fn law_add_counts(s: Seq<EntryView>, name: Seq<char>)
    requires
        find_name(s, name) matches Some(i) ==> s[i].1 < usize::MAX,
    ensures
        find_name(s, name) matches Some(i) ==> (exists|k: int|
            0 <= k < spec_add(s, name).len() && #[trigger] spec_add(s, name)[k] == (name, (s[i].1
                + 1) as usize)),
        find_name(s, name) is None ==> spec_add(s, name).last() == (name, 1usize),
        spec_add(s, name).len() == (if find_name(s, name) is Some {
            s.len()
        } else {
            s.len() + 1
        }),
{
    lemma_find_name_from(s, name, 0);
    match find_name(s, name) {
        Some(i) => {
            let count = (s[i].1 + 1) as usize;
            lemma_bubble_to(s, i, count);
            let p = bubble_to(s, i, count);
            assert(spec_add(s, name)[p] == (name, count));
        },
        None => {},
    }
}

pub open spec fn histfile_name(drun: bool) -> Seq<char> {
    if drun {
        seq!['t', 'o', 'f', 'i', '-', 'd', 'r', 'u', 'n', '-', 'h', 'i', 's', 't', 'o', 'r', 'y']
    } else {
        seq!['t', 'o', 'f', 'i', '-', 'h', 'i', 's', 't', 'o', 'r', 'y']
    }
}

pub open spec fn local_state() -> Seq<char> {
    seq!['.', 'l', 'o', 'c', 'a', 'l', '/', 's', 't', 'a', 't', 'e']
}

/// Where the history file lies: `tofi-history` (`tofi-drun-history` for the
/// application mode) under `$XDG_STATE_HOME` when it is set, else under
/// `$HOME/.local/state`; nowhere when neither is set.
pub open spec fn spec_history_path(state_home: Option<Seq<char>>, home: Option<Seq<char>>, drun: bool) -> Option<Seq<char>> {
    match state_home {
        Some(s) => Some(join_path(s, histfile_name(drun))),
        None => match home {
            Some(h) => Some(join_path(join_path(h, local_state()), histfile_name(drun))),
            None => None,
        },
    }
}

/// Where the history file lies, from the values of `$XDG_STATE_HOME` and
/// `$HOME`, as [`spec_history_path`] says.
pub fn resolve_history_path(xdg_state_home: Option<&str>, home: Option<&str>, drun: bool) -> (r: Option<String>)
    ensures
        r is Some <==> (xdg_state_home is Some || home is Some),
        r matches Some(p) ==> spec_history_path(
            match xdg_state_home {
                Some(s) => Some(s@),
                None => None,
            },
            match home {
                Some(h) => Some(h@),
                None => None,
            },
            drun,
        ) == Some(p@),
{
    proof {
        reveal_strlit("tofi-drun-history");
        reveal_strlit("tofi-history");
        reveal_strlit(".local/state");
    }
    let basename = if drun {
        "tofi-drun-history"
    } else {
        "tofi-history"
    };
    match xdg_state_home {
        Some(s) => Some(join_path_exec(s, basename)),
        None => match home {
            Some(h) => {
                let base = join_path_exec(h, ".local/state");
                Some(join_path_exec(base.as_str(), basename))
            },
            None => None,
        },
    }
}

/// The history file of a launch: the one the user named, else the default
/// one of the mode (see [`spec_history_path`]); the line-picking mode keeps
/// no history unless a file is named.
pub open spec fn spec_history_file(
    mode: LaunchMode,
    history_file: Option<Seq<char>>,
    state_home: Option<Seq<char>>,
    home: Option<Seq<char>>,
) -> Option<Seq<char>> {
    match history_file {
        Some(f) => Some(f),
        None => match mode {
            LaunchMode::Dmenu => None,
            LaunchMode::Drun => spec_history_path(state_home, home, true),
            LaunchMode::Run => spec_history_path(state_home, home, false),
        },
    }
}

/// The history file of a launch in `mode`, from the file the user named and
/// the values of `$XDG_STATE_HOME` and `$HOME`, as [`spec_history_file`] says.
pub fn history_path(
    mode: LaunchMode,
    history_file: Option<&str>,
    xdg_state_home: Option<&str>,
    home: Option<&str>,
) -> (r: Option<String>)
    ensures
        ({
            let f = match history_file {
                Some(f) => Some(f@),
                None => None,
            };
            let sh = match xdg_state_home {
                Some(s) => Some(s@),
                None => None,
            };
            let h = match home {
                Some(h) => Some(h@),
                None => None,
            };
            &&& r is Some <==> spec_history_file(mode, f, sh, h) is Some
            &&& r matches Some(p) ==> spec_history_file(mode, f, sh, h) == Some(p@)
        }),
{
    match history_file {
        Some(f) => Some(f.to_owned()),
        None => match mode {
            LaunchMode::Dmenu => None,
            LaunchMode::Drun => resolve_history_path(xdg_state_home, home, true),
            LaunchMode::Run => resolve_history_path(xdg_state_home, home, false),
        },
    }
}

} // verus!
