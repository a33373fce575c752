//! Desktop entries for the application mode: reading `.desktop` files,
//! choosing localised values, and expanding `Exec` field codes.
//!
//! Finding the files, reading them and the cache live with the caller; this
//! module works on the text of one file.

use vstd::hash_map::StringHashMap;
use vstd::prelude::*;

use crate::chars::{
    ascii_lower, char_sep, eq_chars, eq_ignore_ascii_case, eq_ignore_ascii_case_exec, find_char,
    find_char_exec, lemma_find_char_from, split_lines, split_nonempty, sub_chars, trim, trim_chars,
};
use crate::lexical::{lemma_lex_reflexive, lex_compare, lex_le};
use crate::sorting::{lemma_stable_sort_map, sort_stable, stable_sort};
use crate::text::{chars_of, fields_from, strip_cr, string_of, string_views, text_lines, views};
use crate::theme::{join_path, join_path_exec};
use crate::unicode::{spec_is_whitespace, spec_nfc, utf8_normalize};

verus! {

/// A parsed desktop application entry.
#[derive(Debug, Clone, PartialEq, Eq)]
pub struct DesktopEntry {
    /// Desktop file ID (relative path with `/` replaced by `-`).
    pub id: String,
    /// Locale-aware application name, NFC-normalised.
    pub name: String,
    /// Path of the `.desktop` file.
    pub path: String,
    /// Raw keyword string (semicolon-separated).
    pub keywords: String,
    /// Raw `Exec` field value.
    pub exec_line: String,
    /// Icon name (for `%i` field-code expansion).
    pub icon: String,
    /// Whether the application requires a terminal emulator.
    pub terminal: bool,
}

/// The fields collected while reading a desktop file, line by line.
pub ghost struct DesktopScan {
    pub in_section: bool,
    pub names: Map<Seq<char>, Seq<char>>,
    pub keywords: Map<Seq<char>, Seq<char>>,
    pub exec_line: Seq<char>,
    pub icon: Seq<char>,
    pub terminal: bool,
    pub hidden: bool,
    pub no_display: bool,
    pub only_show_in: Seq<Seq<char>>,
    pub not_show_in: Seq<Seq<char>>,
}

/// Nothing read yet.
pub open spec fn scan_start() -> DesktopScan {
    DesktopScan {
        in_section: false,
        names: Map::empty(),
        keywords: Map::empty(),
        exec_line: Seq::empty(),
        icon: Seq::empty(),
        terminal: false,
        hidden: false,
        no_display: false,
        only_show_in: Seq::empty(),
        not_show_in: Seq::empty(),
    }
}

pub open spec fn section_header() -> Seq<char> {
    seq!['[', 'D', 'e', 's', 'k', 't', 'o', 'p', ' ', 'E', 'n', 't', 'r', 'y', ']']
}

pub open spec fn key_name() -> Seq<char> {
    seq!['N', 'a', 'm', 'e']
}

pub open spec fn key_keywords() -> Seq<char> {
    seq!['K', 'e', 'y', 'w', 'o', 'r', 'd', 's']
}

pub open spec fn key_exec() -> Seq<char> {
    seq!['E', 'x', 'e', 'c']
}

pub open spec fn key_icon() -> Seq<char> {
    seq!['I', 'c', 'o', 'n']
}

pub open spec fn key_terminal() -> Seq<char> {
    seq!['T', 'e', 'r', 'm', 'i', 'n', 'a', 'l']
}

pub open spec fn key_hidden() -> Seq<char> {
    seq!['H', 'i', 'd', 'd', 'e', 'n']
}

pub open spec fn key_no_display() -> Seq<char> {
    seq!['N', 'o', 'D', 'i', 's', 'p', 'l', 'a', 'y']
}

pub open spec fn key_only_show_in() -> Seq<char> {
    seq!['O', 'n', 'l', 'y', 'S', 'h', 'o', 'w', 'I', 'n']
}

pub open spec fn key_not_show_in() -> Seq<char> {
    seq!['N', 'o', 't', 'S', 'h', 'o', 'w', 'I', 'n']
}

pub open spec fn word_true() -> Seq<char> {
    seq!['t', 'r', 'u', 'e']
}

/// `s` without any trailing `c`.
pub open spec fn trim_trailing(s: Seq<char>, c: char) -> Seq<char>
    decreases s.len(),
{
    if s.len() > 0 && s.last() == c {
        trim_trailing(s.drop_last(), c)
    } else {
        s
    }
}

/// A key such as `Name[en_US]` split into the key and its locale (empty when
/// there is no `[`).
pub open spec fn key_and_locale(raw_key: Seq<char>) -> (Seq<char>, Seq<char>) {
    match find_char(raw_key, '[') {
        Some(b) => (raw_key.take(b), trim_trailing(raw_key.skip(b + 1), ']')),
        None => (raw_key, Seq::empty()),
    }
}

/// What reading one line of a desktop file changes.
pub open spec fn scan_line(st: DesktopScan, raw: Seq<char>) -> DesktopScan {
    let line = trim(raw);
    if line.len() > 0 && line[0] == '[' {
        DesktopScan { in_section: line == section_header(), ..st }
    } else if !st.in_section || (line.len() > 0 && line[0] == '#') || line.len() == 0 {
        st
    } else {
        match find_char(line, '=') {
            None => st,
            Some(e) => {
                let raw_key = trim(line.take(e));
                let value = trim(line.skip(e + 1));
                let key = key_and_locale(raw_key).0;
                let locale = key_and_locale(raw_key).1;
                if key == key_name() {
                    DesktopScan { names: st.names.insert(locale, value), ..st }
                } else if key == key_keywords() {
                    DesktopScan { keywords: st.keywords.insert(locale, value), ..st }
                } else if key == key_exec() {
                    DesktopScan { exec_line: value, ..st }
                } else if key == key_icon() {
                    DesktopScan { icon: value, ..st }
                } else if key == key_terminal() {
                    DesktopScan { terminal: eq_ignore_ascii_case(value, word_true()), ..st }
                } else if key == key_hidden() {
                    DesktopScan { hidden: eq_ignore_ascii_case(value, word_true()), ..st }
                } else if key == key_no_display() {
                    DesktopScan { no_display: eq_ignore_ascii_case(value, word_true()), ..st }
                } else if key == key_only_show_in() {
                    DesktopScan { only_show_in: fields_from(value, Seq::empty(), char_sep(';')), ..st }
                } else if key == key_not_show_in() {
                    DesktopScan { not_show_in: fields_from(value, Seq::empty(), char_sep(';')), ..st }
                } else {
                    st
                }
            },
        }
    }
}

/// What reading the lines `ls` in order changes.
pub open spec fn scan_lines(st: DesktopScan, ls: Seq<Seq<char>>) -> DesktopScan
    decreases ls.len(),
{
    if ls.len() == 0 {
        st
    } else {
        scan_lines(scan_line(st, ls[0]), ls.drop_first())
    }
}

/// The localised value to use: for the language and territory, else for the
/// language, else the unlocalised one.
pub open spec fn spec_best_locale(
    values: Map<Seq<char>, Seq<char>>,
    lang: Seq<char>,
    territory: Seq<char>,
) -> Option<Seq<char>> {
    let full = lang + seq!['_'] + territory;
    if territory.len() > 0 && values.contains_key(full) {
        Some(values[full])
    } else if lang.len() > 0 && values.contains_key(lang) {
        Some(values[lang])
    } else if values.contains_key(Seq::empty()) {
        Some(values[Seq::empty()])
    } else {
        None
    }
}

/// Whether the two lists have an element in common.
pub open spec fn share_element(a: Seq<Seq<char>>, b: Seq<Seq<char>>) -> bool {
    exists|i: int, j: int| 0 <= i < a.len() && 0 <= j < b.len() && #[trigger] a[i] == #[trigger] b[j]
}

/// Whether one of `desktops` is among the colon-separated names of the current desktop.
pub open spec fn matches_desktop(current: Option<Seq<char>>, desktops: Seq<Seq<char>>) -> bool {
    match current {
        Some(c) => share_element(fields_from(c, Seq::empty(), char_sep(':')), desktops),
        None => false,
    }
}

/// The plain values of a desktop entry.
pub ghost struct DesktopEntryView {
    pub id: Seq<char>,
    pub name: Seq<char>,
    pub path: Seq<char>,
    pub keywords: Seq<char>,
    pub exec_line: Seq<char>,
    pub icon: Seq<char>,
    pub terminal: bool,
}

impl DesktopEntry {
    pub open spec fn view(&self) -> DesktopEntryView {
        DesktopEntryView {
            id: self.id@,
            name: self.name@,
            path: self.path@,
            keywords: self.keywords@,
            exec_line: self.exec_line@,
            icon: self.icon@,
            terminal: self.terminal,
        }
    }
}

/// The entry a desktop file describes, or `None` when it is hidden, not shown
/// on the current desktop, or has no name.
pub open spec fn spec_parse_entry(
    id: Seq<char>,
    path: Seq<char>,
    content: Seq<char>,
    lang: Seq<char>,
    territory: Seq<char>,
    current: Option<Seq<char>>,
) -> Option<DesktopEntryView> {
    let st = scan_lines(scan_start(), text_lines(content));
    if st.hidden || st.no_display {
        None
    } else if st.only_show_in.len() > 0 && !matches_desktop(current, st.only_show_in) {
        None
    } else if st.not_show_in.len() > 0 && matches_desktop(current, st.not_show_in) {
        None
    } else {
        match spec_best_locale(st.names, lang, territory) {
            None => None,
            Some(raw_name) => Some(
                DesktopEntryView {
                    id,
                    name: spec_nfc(raw_name),
                    path,
                    keywords: match spec_best_locale(st.keywords, lang, territory) {
                        Some(k) => k,
                        None => Seq::empty(),
                    },
                    exec_line: st.exec_line,
                    icon: st.icon,
                    terminal: st.terminal,
                },
            ),
        }
    }
}

/// The values of a map of strings, seen as character sequences.
pub open spec fn string_map_view(m: Map<Seq<char>, String>) -> Map<Seq<char>, Seq<char>> {
    m.map_values(|v: String| v@)
}

/// Picks the best localised value from a map of locale to value: for
/// `lang_territory`, else for `lang`, else the unlocalised (`""`) one.
pub fn best_locale<'a>(values: &'a StringHashMap<String>, lang: &str, territory: &str) -> (r: Option<&'a str>)
    ensures
        r is Some <==> spec_best_locale(string_map_view(values@), lang@, territory@) is Some,
        r matches Some(v) ==> spec_best_locale(string_map_view(values@), lang@, territory@) == Some(v@),
{
    let ghost m = string_map_view(values@);
    let mut full = chars_of(lang);
    full.push('_');
    let mut t = chars_of(territory);
    full.append(&mut t);
    let full_s = string_of(full.as_slice());
    proof {
        assert(full_s@ =~= lang@ + seq!['_'] + territory@);
    }
    if !territory.is_empty() {
        match values.get(full_s.as_str()) {
            Some(v) => {
                return Some(v.as_str());
            },
            None => {},
        }
    }
    if !lang.is_empty() {
        match values.get(lang) {
            Some(v) => {
                return Some(v.as_str());
            },
            None => {},
        }
    }
    let empty = String::new();
    match values.get(empty.as_str()) {
        Some(v) => Some(v.as_str()),
        None => None,
    }
}

/// The language and territory of a locale string such as `en_US.UTF-8`
/// (`("en", "US")`); the territory is empty when there is none.
pub fn locale_parts(locale: &str) -> (r: (String, String))
    ensures
        ({
            let s = locale@;
            let base = match find_char(s, '.') {
                Some(d) => s.take(d),
                None => s,
            };
            match find_char(base, '_') {
                Some(u) => r.0@ == base.take(u) && r.1@ == base.skip(u + 1),
                None => r.0@ == base && r.1@ == Seq::<char>::empty(),
            }
        }),
{
    let cs = chars_of(locale);
    let base = match find_char_exec(cs.as_slice(), '.') {
        Some(d) => sub_chars(cs.as_slice(), 0, d),
        None => cs,
    };
    match find_char_exec(base.as_slice(), '_') {
        Some(u) => {
            let l = sub_chars(base.as_slice(), 0, u);
            let t = sub_chars(base.as_slice(), u + 1, base.len());
            assert(l@ =~= base@.take(u as int));
            assert(t@ =~= base@.skip(u + 1));
            (string_of(l.as_slice()), string_of(t.as_slice()))
        },
        None => (string_of(base.as_slice()), String::new()),
    }
}

/// The language and territory of the user's locale: the value of `$LANG`,
/// else of `$LANGUAGE`, else nothing, split as [`locale_parts`] splits it.
pub fn current_locale(lang_var: Option<&str>, language_var: Option<&str>) -> (r: (String, String))
    ensures
        ({
            let s = match lang_var {
                Some(l) => l@,
                None => match language_var {
                    Some(l) => l@,
                    None => Seq::empty(),
                },
            };
            let base = match find_char(s, '.') {
                Some(d) => s.take(d),
                None => s,
            };
            match find_char(base, '_') {
                Some(u) => r.0@ == base.take(u) && r.1@ == base.skip(u + 1),
                None => r.0@ == base && r.1@ == Seq::<char>::empty(),
            }
        }),
{
    match lang_var {
        Some(l) => locale_parts(l),
        None => match language_var {
            Some(l) => locale_parts(l),
            None => {
                proof {
                    reveal_strlit("");
                }
                locale_parts("")
            },
        },
    }
}

/// Whether one of `desktops` is among the colon-separated names in `current`,
/// the value of `$XDG_CURRENT_DESKTOP` (never, when it is not set).
pub fn matches_current_desktop(current: Option<&str>, desktops: &[String]) -> (r: bool)
    ensures
        r == matches_desktop(
            match current {
                Some(c) => Some(c@),
                None => None,
            },
            string_views(desktops@),
        ),
{
    let mut ds: Vec<Vec<char>> = Vec::new();
    let mut i: usize = 0;
    while i < desktops.len()
        invariant
            i <= desktops@.len(),
            views(ds@) == string_views(desktops@.take(i as int)),
        decreases desktops@.len() - i,
    {
        let ghost before = ds@;
        let d = chars_of(desktops[i].as_str());
        ds.push(d);
        assert(views(ds@) =~= views(before).push(desktops@[i as int]@));
        assert(string_views(desktops@.take(i + 1)) =~= string_views(desktops@.take(i as int)).push(
            desktops@[i as int]@,
        ));
        i = i + 1;
    }
    assert(desktops@.take(i as int) =~= desktops@);
    matches_desktop_exec(current, &ds)
}

/// The fields collected while reading a desktop file.
struct ScanState {
    in_section: bool,
    names: StringHashMap<String>,
    keywords: StringHashMap<String>,
    exec_line: Vec<char>,
    icon: Vec<char>,
    terminal: bool,
    hidden: bool,
    no_display: bool,
    only_show_in: Vec<Vec<char>>,
    not_show_in: Vec<Vec<char>>,
}

impl ScanState {
    spec fn view(&self) -> DesktopScan {
        DesktopScan {
            in_section: self.in_section,
            names: string_map_view(self.names@),
            keywords: string_map_view(self.keywords@),
            exec_line: self.exec_line@,
            icon: self.icon@,
            terminal: self.terminal,
            hidden: self.hidden,
            no_display: self.no_display,
            only_show_in: views(self.only_show_in@),
            not_show_in: views(self.not_show_in@),
        }
    }
}

/// `s` without any trailing `c`.
fn trim_trailing_exec(s: &[char], c: char) -> (r: Vec<char>)
    ensures
        r@ == trim_trailing(s@, c),
{
    let mut b = s.len();
    proof {
        assert(s@.take(b as int) =~= s@);
    }
    while b > 0 && s[b - 1] == c
        invariant
            b <= s@.len(),
            trim_trailing(s@, c) == trim_trailing(s@.take(b as int), c),
        decreases b,
    {
        assert(s@.take(b as int).drop_last() =~= s@.take(b - 1));
        b = b - 1;
    }
    sub_chars(s, 0, b)
}

/// Reads one line of a desktop file into `st`, as [`scan_line`] says.
fn scan_line_exec(st: &mut ScanState, raw: &Vec<char>)
    ensures
        final(st).view() == scan_line(old(st).view(), raw@),
{
    let line = trim_chars(raw.as_slice());
    if line.len() > 0 && line[0] == '[' {
        let header = ['[', 'D', 'e', 's', 'k', 't', 'o', 'p', ' ', 'E', 'n', 't', 'r', 'y', ']'];
        st.in_section = eq_chars(line.as_slice(), header.as_slice());
        assert(header@ =~= section_header());
        return;
    }
    if !st.in_section || (line.len() > 0 && line[0] == '#') || line.len() == 0 {
        return;
    }
    let e = match find_char_exec(line.as_slice(), '=') {
        Some(e) => e,
        None => return,
    };
    let raw_key = trim_chars(sub_chars(line.as_slice(), 0, e).as_slice());
    let value = trim_chars(sub_chars(line.as_slice(), e + 1, line.len()).as_slice());
    proof {
        assert(line@.take(e as int) =~= line@.subrange(0, e as int));
        assert(line@.skip(e + 1) =~= line@.subrange(e + 1, line@.len() as int));
    }
    let (key, locale) = match find_char_exec(raw_key.as_slice(), '[') {
        Some(b) => {
            let n = raw_key.len();
            let k = sub_chars(raw_key.as_slice(), 0, b);
            let l0 = sub_chars(raw_key.as_slice(), b + 1, n);
            proof {
                assert(k@ =~= raw_key@.take(b as int));
                assert(l0@ =~= raw_key@.skip(b + 1));
            }
            (k, trim_trailing_exec(l0.as_slice(), ']'))
        },
        None => (raw_key, Vec::new()),
    };
    proof {
        assert(key@ == key_and_locale(raw_key@).0);
        assert(locale@ =~= key_and_locale(raw_key@).1);
    }
    let k = key.as_slice();
    let ghost old_view = st.view();
    let name_k = ['N', 'a', 'm', 'e'];
    let keywords_k = ['K', 'e', 'y', 'w', 'o', 'r', 'd', 's'];
    let exec_k = ['E', 'x', 'e', 'c'];
    let icon_k = ['I', 'c', 'o', 'n'];
    let terminal_k = ['T', 'e', 'r', 'm', 'i', 'n', 'a', 'l'];
    let hidden_k = ['H', 'i', 'd', 'd', 'e', 'n'];
    let no_display_k = ['N', 'o', 'D', 'i', 's', 'p', 'l', 'a', 'y'];
    let only_k = ['O', 'n', 'l', 'y', 'S', 'h', 'o', 'w', 'I', 'n'];
    let not_k = ['N', 'o', 't', 'S', 'h', 'o', 'w', 'I', 'n'];
    let true_w = ['t', 'r', 'u', 'e'];
    proof {
        assert(name_k@ =~= key_name());
        assert(keywords_k@ =~= key_keywords());
        assert(exec_k@ =~= key_exec());
        assert(icon_k@ =~= key_icon());
        assert(terminal_k@ =~= key_terminal());
        assert(hidden_k@ =~= key_hidden());
        assert(no_display_k@ =~= key_no_display());
        assert(only_k@ =~= key_only_show_in());
        assert(not_k@ =~= key_not_show_in());
        assert(true_w@ =~= word_true());
    }
    if eq_chars(k, name_k.as_slice()) {
        let ghost before = st.names@;
        st.names.insert(string_of(locale.as_slice()), string_of(value.as_slice()));
        assert(string_map_view(st.names@) =~= string_map_view(before).insert(locale@, value@));
    } else if eq_chars(k, keywords_k.as_slice()) {
        let ghost before = st.keywords@;
        st.keywords.insert(string_of(locale.as_slice()), string_of(value.as_slice()));
        assert(string_map_view(st.keywords@) =~= string_map_view(before).insert(locale@, value@));
    } else if eq_chars(k, exec_k.as_slice()) {
        st.exec_line = value;
    } else if eq_chars(k, icon_k.as_slice()) {
        st.icon = value;
    } else if eq_chars(k, terminal_k.as_slice()) {
        st.terminal = eq_ignore_ascii_case_exec(value.as_slice(), true_w.as_slice());
    } else if eq_chars(k, hidden_k.as_slice()) {
        st.hidden = eq_ignore_ascii_case_exec(value.as_slice(), true_w.as_slice());
    } else if eq_chars(k, no_display_k.as_slice()) {
        st.no_display = eq_ignore_ascii_case_exec(value.as_slice(), true_w.as_slice());
    } else if eq_chars(k, only_k.as_slice()) {
        st.only_show_in = split_nonempty(value.as_slice(), ';');
    } else if eq_chars(k, not_k.as_slice()) {
        st.not_show_in = split_nonempty(value.as_slice(), ';');
    }
}

/// Whether one of `desktops` is among the colon-separated names in `current`.
fn matches_desktop_exec(current: Option<&str>, desktops: &Vec<Vec<char>>) -> (r: bool)
    ensures
        r == matches_desktop(
            match current {
                Some(c) => Some(c@),
                None => None,
            },
            views(desktops@),
        ),
{
    let ghost ds = views(desktops@);
    match current {
        None => false,
        Some(c) => {
            let cs = chars_of(c);
            let parts = split_nonempty(cs.as_slice(), ':');
            let ghost ps = views(parts@);
            let mut i: usize = 0;
            while i < parts.len()
                invariant
                    current == Some(c),
                    i <= parts@.len(),
                    ps == views(parts@),
                    ps == fields_from(c@, Seq::empty(), char_sep(':')),
                    ds == views(desktops@),
                    forall|a: int, b: int| 0 <= a < i && 0 <= b < ds.len() ==> ps[a] != ds[b],
                decreases parts@.len() - i,
            {
                let mut j: usize = 0;
                while j < desktops.len()
                    invariant
                        current == Some(c),
                        i < parts@.len(),
                        j <= desktops@.len(),
                        ps == views(parts@),
                        ps == fields_from(c@, Seq::empty(), char_sep(':')),
                        ds == views(desktops@),
                        forall|b: int| 0 <= b < j ==> ps[i as int] != ds[b],
                    decreases desktops@.len() - j,
                {
                    if eq_chars(parts[i].as_slice(), desktops[j].as_slice()) {
                        proof {
                            assert(ps[i as int] == parts@[i as int]@);
                            assert(ds[j as int] == desktops@[j as int]@);
                            assert(ps[i as int] == ds[j as int]);
                            assert(share_element(ps, ds));
                        }
                        return true;
                    }
                    proof {
                        assert(ps[i as int] == parts@[i as int]@);
                        assert(ds[j as int] == desktops@[j as int]@);
                    }
                    j = j + 1;
                }
                i = i + 1;
            }
            false
        },
    }
}

/// Reads the text of one `.desktop` file.
///
/// `lang` and `territory` select localised values; `current_desktop` is the
/// value of `$XDG_CURRENT_DESKTOP`, if set. Returns `None` when the entry is
/// hidden, not shown on the current desktop, or has no name.
pub fn parse_entry_text(
    id: &str,
    path: &str,
    content: &str,
    lang: &str,
    territory: &str,
    current_desktop: Option<&str>,
) -> (r: Option<DesktopEntry>)
    ensures
        ({
            let cur = match current_desktop {
                Some(c) => Some(c@),
                None => None,
            };
            match spec_parse_entry(id@, path@, content@, lang@, territory@, cur) {
                Some(v) => r matches Some(e) && e.view() == v,
                None => r is None,
            }
        }),
{
    let cs = chars_of(content);
    let lines = split_lines(cs.as_slice());
    let ghost ls = views(lines@);
    let mut st = ScanState {
        in_section: false,
        names: StringHashMap::new(),
        keywords: StringHashMap::new(),
        exec_line: Vec::new(),
        icon: Vec::new(),
        terminal: false,
        hidden: false,
        no_display: false,
        only_show_in: Vec::new(),
        not_show_in: Vec::new(),
    };
    proof {
        assert(st.view().names =~= Map::<Seq<char>, Seq<char>>::empty());
        assert(st.view().keywords =~= Map::<Seq<char>, Seq<char>>::empty());
        assert(st.view().only_show_in =~= Seq::<Seq<char>>::empty());
        assert(st.view().not_show_in =~= Seq::<Seq<char>>::empty());
        assert(st.view() == scan_start());
        assert(ls.skip(0) =~= ls);
    }
    let mut i: usize = 0;
    while i < lines.len()
        invariant
            i <= lines@.len(),
            ls == views(lines@),
            ls == text_lines(content@),
            scan_lines(scan_start(), ls) == scan_lines(st.view(), ls.skip(i as int)),
        decreases lines@.len() - i,
    {
        let ghost before = st.view();
        scan_line_exec(&mut st, &lines[i]);
        proof {
            assert(ls.skip(i as int)[0] == lines@[i as int]@);
            assert(ls.skip(i as int).drop_first() =~= ls.skip(i + 1));
        }
        i = i + 1;
    }
    proof {
        assert(ls.skip(i as int) =~= Seq::<Seq<char>>::empty());
    }
    if st.hidden || st.no_display {
        return None;
    }
    if st.only_show_in.len() > 0 && !matches_desktop_exec(current_desktop, &st.only_show_in) {
        return None;
    }
    if st.not_show_in.len() > 0 && matches_desktop_exec(current_desktop, &st.not_show_in) {
        return None;
    }
    let raw_name = match best_locale(&st.names, lang, territory) {
        Some(n) => n,
        None => return None,
    };
    let name = utf8_normalize(raw_name);
    let keywords = match best_locale(&st.keywords, lang, territory) {
        Some(k) => string_of(chars_of(k).as_slice()),
        None => String::new(),
    };
    Some(
        DesktopEntry {
            id: string_of(chars_of(id).as_slice()),
            name,
            path: string_of(chars_of(path).as_slice()),
            keywords,
            exec_line: string_of(st.exec_line.as_slice()),
            icon: string_of(st.icon.as_slice()),
            terminal: st.terminal,
        },
    )
}

/// What the field code `%c` stands for in an `Exec` value: `%%` is a literal
/// `%`, `%i` the `--icon` option when there is an icon, `%c` the name, `%k`
/// the file's path; every other code stands for nothing.
pub open spec fn field_code_text(c: char, e: DesktopEntryView) -> Seq<char> {
    if c == '%' {
        seq!['%']
    } else if c == 'i' && e.icon.len() > 0 {
        seq!['-', '-', 'i', 'c', 'o', 'n', ' '] + e.icon
    } else if c == 'c' {
        e.name
    } else if c == 'k' {
        e.path
    } else {
        Seq::empty()
    }
}

/// `s` with each field code replaced by what it stands for; a lone `%` at the
/// end is dropped.
pub open spec fn expand_field_codes(s: Seq<char>, e: DesktopEntryView) -> Seq<char>
    decreases s.len(),
{
    if s.len() == 0 {
        Seq::empty()
    } else if s[0] != '%' {
        seq![s[0]] + expand_field_codes(s.drop_first(), e)
    } else if s.len() == 1 {
        Seq::empty()
    } else {
        field_code_text(s[1], e) + expand_field_codes(s.skip(2), e)
    }
}

/// The command line to run for `entry`: its `Exec` value with the field codes
/// expanded, trimmed of surrounding whitespace.
pub fn exec_command(entry: &DesktopEntry) -> (r: String)
    ensures
        r@ == trim(expand_field_codes(entry.exec_line@, entry.view())),
{
    let ghost e = entry.view();
    let s = chars_of(entry.exec_line.as_str());
    let mut out: Vec<char> = Vec::new();
    let mut i: usize = 0;
    proof {
        assert(s@.skip(0) =~= s@);
    }
    while i < s.len()
        invariant
            i <= s@.len(),
            e == entry.view(),
            s@ == entry.exec_line@,
            expand_field_codes(s@, e) == out@ + expand_field_codes(s@.skip(i as int), e),
        decreases s@.len() - i,
    {
        let ghost rest = s@.skip(i as int);
        let ghost before = out@;
        let ch = s[i];
        if ch != '%' {
            out.push(ch);
            proof {
                assert(rest.drop_first() =~= s@.skip(i + 1));
                assert(out@ =~= before + seq![ch]);
            }
            i = i + 1;
        } else if i + 1 == s.len() {
            proof {
                assert(rest.len() == 1);
                assert(out@ + expand_field_codes(s@.skip(i + 1), e) =~= before);
            }
            i = i + 1;
        } else {
            let code = s[i + 1];
            let ghost added = field_code_text(code, e);
            if code == '%' {
                out.push('%');
            } else if code == 'i' && !entry.icon.as_str().is_empty() {
                let mut opt = vec!['-', '-', 'i', 'c', 'o', 'n', ' '];
                let mut icon = chars_of(entry.icon.as_str());
                opt.append(&mut icon);
                out.append(&mut opt);
            } else if code == 'c' {
                let mut name = chars_of(entry.name.as_str());
                out.append(&mut name);
            } else if code == 'k' {
                let mut path = chars_of(entry.path.as_str());
                out.append(&mut path);
            }
            proof {
                assert(rest[1] == code);
                assert(rest.skip(2) =~= s@.skip(i + 2));
                assert(out@ =~= before + added);
            }
            i = i + 2;
        }
    }
    proof {
        assert(s@.skip(i as int) =~= Seq::<char>::empty());
        assert(out@ + Seq::<char>::empty() =~= out@);
    }
    let t = trim_chars(out.as_slice());
    string_of(t.as_slice())
}

pub open spec fn cache_basename() -> Seq<char> {
    seq!['t', 'o', 'f', 'i', '-', 'd', 'r', 'u', 'n']
}

pub open spec fn dot_cache() -> Seq<char> {
    seq!['.', 'c', 'a', 'c', 'h', 'e']
}

/// Where the cache of desktop entries lies: `tofi-drun` under
/// `$XDG_CACHE_HOME` when it is set, else under `$HOME/.cache`; nowhere when
/// neither is set.
pub open spec fn spec_cache_path(cache_home: Option<Seq<char>>, home: Option<Seq<char>>) -> Option<Seq<char>> {
    match cache_home {
        Some(c) => Some(join_path(c, cache_basename())),
        None => match home {
            Some(h) => Some(join_path(join_path(h, dot_cache()), cache_basename())),
            None => None,
        },
    }
}

/// Where the cache of desktop entries lies, from the values of
/// `$XDG_CACHE_HOME` and `$HOME`, as [`spec_cache_path`] says.
pub fn resolve_cache_path(xdg_cache_home: Option<&str>, home: Option<&str>) -> (r: Option<String>)
    ensures
        r is Some <==> (xdg_cache_home is Some || home is Some),
        r matches Some(p) ==> spec_cache_path(
            match xdg_cache_home {
                Some(c) => Some(c@),
                None => None,
            },
            match home {
                Some(h) => Some(h@),
                None => None,
            },
        ) == Some(p@),
{
    proof {
        reveal_strlit("tofi-drun");
        reveal_strlit(".cache");
    }
    match xdg_cache_home {
        Some(c) => Some(join_path_exec(c, "tofi-drun")),
        None => match home {
            Some(h) => {
                let base = join_path_exec(h, ".cache");
                Some(join_path_exec(base.as_str(), "tofi-drun"))
            },
            None => None,
        },
    }
}

/// An `Exec` value without field codes runs as it is written, without the
/// surrounding whitespace.
pub proof fn law_exec_without_codes(s: Seq<char>, e: DesktopEntryView)
    requires
        !s.contains('%'),
    ensures
        expand_field_codes(s, e) == s,
    decreases s.len(),
{
    if s.len() > 0 {
        assert(s[0] != '%');
        assert(!s.drop_first().contains('%')) by {
            if s.drop_first().contains('%') {
                let i = choose|i: int| 0 <= i < s.drop_first().len() && s.drop_first()[i] == '%';
                assert(s[i + 1] == '%');
            }
        }
        law_exec_without_codes(s.drop_first(), e);
        assert(seq![s[0]] + s.drop_first() =~= s);
    }
}

pub open spec fn word_applications() -> Seq<char> {
    seq!['a', 'p', 'p', 'l', 'i', 'c', 'a', 't', 'i', 'o', 'n', 's']
}

pub open spec fn default_data_dirs() -> Seq<char> {
    seq!['/', 'u', 's', 'r', '/', 'l', 'o', 'c', 'a', 'l', '/', 's', 'h', 'a', 'r', 'e', '/', ':', '/', 'u', 's', 'r', '/', 's', 'h', 'a', 'r', 'e', '/']
}

pub open spec fn dot_local() -> Seq<char> {
    seq!['.', 'l', 'o', 'c', 'a', 'l']
}

pub open spec fn word_share() -> Seq<char> {
    seq!['s', 'h', 'a', 'r', 'e']
}

/// `applications` under each directory.
pub open spec fn applications_under(ds: Seq<Seq<char>>) -> Seq<Seq<char>> {
    ds.map_values(|d: Seq<char>| join_path(d, word_applications()))
}

/// The directories searched for desktop files, most important first:
/// `applications` under the user's data directory (`$XDG_DATA_HOME`, else
/// `$HOME/.local/share`), then under each non-empty entry of the
/// colon-separated `$XDG_DATA_DIRS` (by default `/usr/local/share/:/usr/share/`).
pub open spec fn spec_application_dirs(
    data_home: Option<Seq<char>>,
    home: Option<Seq<char>>,
    data_dirs: Option<Seq<char>>,
) -> Seq<Seq<char>> {
    let user: Seq<Seq<char>> = match data_home {
        Some(d) => seq![join_path(d, word_applications())],
        None => match home {
            Some(h) => seq![join_path(join_path(join_path(h, dot_local()), word_share()), word_applications())],
            None => Seq::empty(),
        },
    };
    let dirs = match data_dirs {
        Some(d) => d,
        None => default_data_dirs(),
    };
    user + applications_under(fields_from(dirs, Seq::empty(), char_sep(':')))
}

/// The directories searched for desktop files, from the values of
/// `$XDG_DATA_HOME`, `$HOME` and `$XDG_DATA_DIRS`, as
/// [`spec_application_dirs`] says.
pub fn application_dirs(data_home: Option<&str>, home: Option<&str>, data_dirs: Option<&str>) -> (r: Vec<String>)
    ensures
        string_views(r@) == spec_application_dirs(
            match data_home {
                Some(s) => Some(s@),
                None => None,
            },
            match home {
                Some(s) => Some(s@),
                None => None,
            },
            match data_dirs {
                Some(s) => Some(s@),
                None => None,
            },
        ),
{
    proof {
        reveal_strlit("applications");
        reveal_strlit(".local");
        reveal_strlit("share");
        reveal_strlit("/usr/local/share/:/usr/share/");
        assert("applications"@ =~= word_applications());
        assert(".local"@ =~= dot_local());
        assert("share"@ =~= word_share());
        assert("/usr/local/share/:/usr/share/"@ =~= default_data_dirs());
    }
    let mut dirs: Vec<String> = Vec::new();
    match data_home {
        Some(d) => {
            let p = join_path_exec(d, "applications");
            dirs.push(p);
            assert(string_views(dirs@) =~= seq![join_path(d@, word_applications())]);
        },
        None => match home {
            Some(h) => {
                let a = join_path_exec(h, ".local");
                let b = join_path_exec(a.as_str(), "share");
                let p = join_path_exec(b.as_str(), "applications");
                dirs.push(p);
                assert(string_views(dirs@) =~= seq![
                    join_path(join_path(join_path(h@, dot_local()), word_share()), word_applications()),
                ]);
            },
            None => {
                assert(string_views(dirs@) =~= Seq::<Seq<char>>::empty());
            },
        },
    }
    let ghost user = string_views(dirs@);
    let list = match data_dirs {
        Some(d) => chars_of(d),
        None => chars_of("/usr/local/share/:/usr/share/"),
    };
    let parts = split_nonempty(list.as_slice(), ':');
    let ghost ps = views(parts@);
    let mut i: usize = 0;
    while i < parts.len()
        invariant
            i <= parts@.len(),
            ps == views(parts@),
            word_applications() == "applications"@,
            string_views(dirs@) == user + applications_under(ps.take(i as int)),
        decreases parts@.len() - i,
    {
        let ghost before = dirs@;
        let d = string_of(parts[i].as_slice());
        let p = join_path_exec(d.as_str(), "applications");
        dirs.push(p);
        proof {
            assert(ps[i as int] == parts@[i as int]@);
            assert(p@ == join_path(ps[i as int], word_applications()));
            assert(ps.take(i + 1) =~= ps.take(i as int).push(ps[i as int]));
            assert(applications_under(ps.take(i + 1)) =~= applications_under(ps.take(i as int)).push(
                join_path(ps[i as int], word_applications()),
            ));
            assert(string_views(dirs@) =~= string_views(before).push(p@));
        }
        i = i + 1;
    }
    proof {
        assert(ps.take(i as int) =~= ps);
    }
    dirs
}

// ── Finding desktop files ───────────────────────────────────────────────────

/// The desktop file ID of the file at `rel` below an applications
/// directory: the relative path with every `/` replaced by `-`.
pub open spec fn spec_desktop_file_id(rel: Seq<char>) -> Seq<char> {
    rel.map_values(|c: char| if c == '/' { '-' } else { c })
}

/// The desktop file ID of a relative path, as [`spec_desktop_file_id`] says.
pub fn desktop_file_id(rel: &str) -> (r: String)
    ensures
        r@ == spec_desktop_file_id(rel@),
{
    let cs = chars_of(rel);
    let mut out: Vec<char> = Vec::new();
    let mut i: usize = 0;
    while i < cs.len()
        invariant
            i <= cs@.len(),
            cs@ == rel@,
            out@ == spec_desktop_file_id(rel@).take(i as int),
        decreases cs@.len() - i,
    {
        let c = cs[i];
        out.push(if c == '/' { '-' } else { c });
        assert(out@ =~= spec_desktop_file_id(rel@).take(i + 1));
        i = i + 1;
    }
    assert(spec_desktop_file_id(rel@).take(i as int) =~= spec_desktop_file_id(rel@));
    string_of(out.as_slice())
}

/// Whether the ID at index `i` of `ids` is the first of its kind: files found
/// earlier hide later ones with the same ID.
pub open spec fn first_of_id(ids: Seq<Seq<char>>, i: int) -> bool {
    forall|j: int| 0 <= j < i ==> ids[j] != ids[i]
}

/// For each ID of `ids`, whether it is the first with that ID.
pub fn first_of_each_id(ids: &[String]) -> (r: Vec<bool>)
    ensures
        r@.len() == ids@.len(),
        forall|i: int| 0 <= i < ids@.len() ==> r@[i] == first_of_id(string_views(ids@), i),
{
    let ghost vs = string_views(ids@);
    let mut cs: Vec<Vec<char>> = Vec::new();
    let mut r: Vec<bool> = Vec::new();
    let mut i: usize = 0;
    while i < ids.len()
        invariant
            i <= ids@.len(),
            vs == string_views(ids@),
            cs@.len() == i,
            r@.len() == i,
            forall|k: int| 0 <= k < i ==> (#[trigger] cs@[k])@ == vs[k],
            forall|k: int| 0 <= k < i ==> r@[k] == first_of_id(vs, k),
        decreases ids@.len() - i,
    {
        let c = chars_of(ids[i].as_str());
        let mut first = true;
        let mut j: usize = 0;
        while j < i
            invariant
                j <= i,
                i < ids@.len(),
                cs@.len() == i,
                vs == string_views(ids@),
                forall|k: int| 0 <= k < i ==> (#[trigger] cs@[k])@ == vs[k],
                c@ == vs[i as int],
                first == (forall|k: int| 0 <= k < j ==> vs[k] != vs[i as int]),
            decreases i - j,
        {
            if crate::chars::eq_chars(cs[j].as_slice(), c.as_slice()) {
                first = false;
            }
            proof {
                assert(cs@[j as int]@ == vs[j as int]);
            }
            j = j + 1;
        }
        r.push(first);
        cs.push(c);
        i = i + 1;
    }
    r
}

/// Desktop entries ordered by name.
pub open spec fn name_order() -> spec_fn(DesktopEntryView, DesktopEntryView) -> bool {
    |a: DesktopEntryView, b: DesktopEntryView| lex_le(a.name, b.name)
}

/// The plain values of each desktop entry.
pub open spec fn entry_views(v: Seq<DesktopEntry>) -> Seq<DesktopEntryView> {
    v.map_values(|e: DesktopEntry| e.view())
}

fn name_le(a: &DesktopEntry, b: &DesktopEntry) -> (r: bool)
    ensures
        r == lex_le(a.name@, b.name@),
{
    let x = chars_of(a.name.as_str());
    let y = chars_of(b.name.as_str());
    proof {
        lemma_lex_reflexive(x@);
    }
    lex_compare(x.as_slice(), y.as_slice()) <= 0
}

/// Sorts desktop entries by name; entries with equal names keep their order.
pub fn sort_by_name(entries: &mut Vec<DesktopEntry>)
    ensures
        entry_views(final(entries)@) == stable_sort(entry_views(old(entries)@), name_order()),
{
    let mut v: Vec<DesktopEntry> = Vec::new();
    std::mem::swap(&mut v, entries);
    let ghost before = v@;
    let ghost rel_e = |a: DesktopEntry, b: DesktopEntry| lex_le(a.name@, b.name@);
    let sorted = sort_stable(v, Ghost(rel_e), name_le);
    proof {
        lemma_stable_sort_map(before, |e: DesktopEntry| e.view(), name_order(), rel_e);
    }
    *entries = sorted;
}

// ── Laws of reading a desktop file ──────────────────────────────────────────

/// Text without whitespace at either end is its own trimmed form.
proof fn lemma_trim_fixed(s: Seq<char>)
    requires
        s.len() > 0 ==> !spec_is_whitespace(s[0]) && !spec_is_whitespace(s.last()),
    ensures
        trim(s) == s,
{
}

/// The first `=` of `key + "=" + rest` is right after `key`, when `key`
/// holds none.
proof fn lemma_first_eq(key: Seq<char>, rest: Seq<char>)
    requires
        forall|i: int| 0 <= i < key.len() ==> key[i] != '=',
    ensures
        find_char(key + seq!['='] + rest, '=') == Some(key.len() as int),
{
    let l = key + seq!['='] + rest;
    lemma_find_char_from(l, '=', 0);
    assert(l[key.len() as int] == '=');
    match find_char(l, '=') {
        Some(k) => {
            if k < key.len() {
                assert(l[k] == key[k]);
            }
        },
        None => {},
    }
}

/// A key without `[` has no locale.
proof fn lemma_no_locale(key: Seq<char>)
    requires
        forall|i: int| 0 <= i < key.len() ==> key[i] != '[',
    ensures
        key_and_locale(key) == (key, Seq::<char>::empty()),
{
    lemma_find_char_from(key, '[', 0);
}

/// Whether `v` is `true` in any ASCII case.
pub open spec fn says_true(v: Seq<char>) -> bool {
    &&& v.len() == 4
    &&& ascii_lower(v[0]) == 't'
    &&& ascii_lower(v[1]) == 'r'
    &&& ascii_lower(v[2]) == 'u'
    &&& ascii_lower(v[3]) == 'e'
}

/// Whether `s` can be a value on its own line: no line feed, no whitespace
/// at either end.
pub open spec fn plain_value(s: Seq<char>) -> bool {
    &&& forall|i: int| 0 <= i < s.len() ==> s[i] != '\n'
    &&& s.len() > 0 ==> !spec_is_whitespace(s[0]) && !spec_is_whitespace(s.last())
}

/// Whether `key` can stand before `=` on a line of its own: not empty, no
/// `=`, `[` or line feed in it, no whitespace at either end, and not
/// starting like a comment.
pub open spec fn plain_key(key: Seq<char>) -> bool {
    &&& key.len() > 0
    &&& forall|i: int| 0 <= i < key.len() ==> key[i] != '=' && key[i] != '[' && key[i] != '\n'
    &&& !spec_is_whitespace(key[0]) && !spec_is_whitespace(key.last())
    &&& key[0] != '#'
}

/// A desktop file whose section gives a name `n` and then `key=v`.
pub open spec fn named_file(n: Seq<char>, key: Seq<char>, v: Seq<char>) -> Seq<char> {
    section_header() + seq!['\n'] + key_name() + seq!['='] + n + seq!['\n'] + key + seq!['='] + v + seq!['\n']
}

/// Reading [`named_file`]: the header opens the section, the name is
/// recorded, and the last line is read as `key` with the value `v`.
proof fn lemma_named_file(n: Seq<char>, key: Seq<char>, v: Seq<char>)
    requires
        plain_value(n),
        plain_value(v),
        plain_key(key),
    ensures
        ({
            let l2 = key + seq!['='] + v;
            let s2 = DesktopScan {
                in_section: true,
                names: Map::<Seq<char>, Seq<char>>::empty().insert(Seq::empty(), n),
                ..scan_start()
            };
            &&& scan_lines(scan_start(), text_lines(named_file(n, key, v))) == scan_line(s2, l2)
            &&& trim(l2) == l2
            &&& find_char(l2, '=') == Some(key.len() as int)
            &&& trim(trim(l2).take(key.len() as int)) == key
            &&& trim(trim(l2).skip(key.len() as int + 1)) == v
            &&& key_and_locale(key) == (key, Seq::<char>::empty())
        }),
{
    let h = section_header();
    let l1 = key_name() + seq!['='] + n;
    let l2 = key + seq!['='] + v;
    let content = named_file(n, key, v);
    let r1 = l1 + seq!['\n'] + l2 + seq!['\n'];
    let r2 = l2 + seq!['\n'];
    assert(content =~= h + seq!['\n'] + r1);
    assert(r1 =~= l1 + seq!['\n'] + r2);
    assert(r2 =~= l2 + seq!['\n'] + Seq::<char>::empty());
    assert forall|i: int| 0 <= i < l1.len() implies l1[i] != '\n' by {
        if i >= 5 {
            assert(l1[i] == n[i - 5]);
        }
    }
    assert forall|i: int| 0 <= i < l2.len() implies l2[i] != '\n' by {
        if i > key.len() {
            assert(l2[i] == v[i - key.len() - 1]);
        } else if i < key.len() {
            assert(l2[i] == key[i]);
        }
    }
    crate::text::lemma_lines_from_line(h, r1, Seq::empty());
    crate::text::lemma_lines_from_line(l1, r2, Seq::empty());
    crate::text::lemma_lines_from_line(l2, Seq::empty(), Seq::empty());
    assert(Seq::<char>::empty() + h =~= h);
    assert(Seq::<char>::empty() + l1 =~= l1);
    assert(Seq::<char>::empty() + l2 =~= l2);
    assert(strip_cr(h) == h);
    assert(strip_cr(l1) == l1);
    assert(strip_cr(l2) == l2);
    let ls = text_lines(content);
    assert(ls =~= seq![h, l1, l2]);
    lemma_trim_fixed(h);
    let s1 = scan_line(scan_start(), h);
    assert(s1 == DesktopScan { in_section: true, ..scan_start() });
    lemma_trim_fixed(l1);
    lemma_first_eq(key_name(), n);
    assert(l1.take(4) =~= key_name());
    assert(l1.skip(5) =~= n);
    lemma_trim_fixed(key_name());
    lemma_trim_fixed(n);
    lemma_no_locale(key_name());
    let s2 = scan_line(s1, l1);
    assert(s2 == DesktopScan { names: Map::<Seq<char>, Seq<char>>::empty().insert(Seq::empty(), n), ..s1 });
    lemma_trim_fixed(l2);
    lemma_first_eq(key, v);
    assert(l2.take(key.len() as int) =~= key);
    assert(l2.skip(key.len() as int + 1) =~= v);
    lemma_trim_fixed(key);
    lemma_trim_fixed(v);
    lemma_no_locale(key);
    assert(ls.drop_first() =~= seq![l1, l2]);
    assert(ls.drop_first().drop_first() =~= seq![l2]);
    assert(ls.drop_first().drop_first().drop_first() =~= Seq::<Seq<char>>::empty());
    let s3 = scan_line(s2, l2);
    assert(scan_lines(s3, Seq::empty()) == s3);
    assert(scan_lines(s2, seq![l2]) == s3);
    assert(scan_lines(s1, seq![l1, l2]) == s3);
}

/// `eq_ignore_ascii_case` against `true` is [`says_true`].
proof fn lemma_says_true(v: Seq<char>)
    ensures
        eq_ignore_ascii_case(v, word_true()) == says_true(v),
{
    if says_true(v) {
        assert forall|i: int| 0 <= i < v.len() implies ascii_lower(#[trigger] v[i]) == ascii_lower(word_true()[i]) by {
            assert(0 <= i < 4);
        }
    }
    if eq_ignore_ascii_case(v, word_true()) {
        assert(ascii_lower(v[0]) == ascii_lower(word_true()[0]));
        assert(ascii_lower(v[1]) == ascii_lower(word_true()[1]));
        assert(ascii_lower(v[2]) == ascii_lower(word_true()[2]));
        assert(ascii_lower(v[3]) == ascii_lower(word_true()[3]));
    }
}

/// The entry of a file that gives only the name `n`, with the terminal flag `terminal`.
pub open spec fn named_entry(id: Seq<char>, path: Seq<char>, n: Seq<char>, terminal: bool) -> DesktopEntryView {
    DesktopEntryView {
        id,
        name: spec_nfc(n),
        path,
        keywords: Seq::empty(),
        exec_line: Seq::empty(),
        icon: Seq::empty(),
        terminal,
    }
}

/// The name recorded by [`named_file`] is found for every locale.
proof fn lemma_only_name(n: Seq<char>, lang: Seq<char>, territory: Seq<char>)
    ensures
        spec_best_locale(Map::<Seq<char>, Seq<char>>::empty().insert(Seq::empty(), n), lang, territory) == Some(n),
        spec_best_locale(Map::<Seq<char>, Seq<char>>::empty(), lang, territory) is None,
{
    let names = Map::<Seq<char>, Seq<char>>::empty().insert(Seq::empty(), n);
    let full = lang + seq!['_'] + territory;
    assert(full.len() > 0);
    assert(!names.contains_key(full));
    assert(lang.len() > 0 ==> !names.contains_key(lang));
}

/// An application needs a terminal exactly when its `Terminal` value is
/// `true` in any ASCII case: reading a file that gives a name and
/// `Terminal=v` yields an entry with that name and that flag, whatever the
/// locale and desktop; `Terminal=false`, or any other word, gives no
/// terminal.
pub proof fn law_terminal_flag(
    id: Seq<char>,
    path: Seq<char>,
    n: Seq<char>,
    v: Seq<char>,
    lang: Seq<char>,
    territory: Seq<char>,
    current: Option<Seq<char>>,
)
    requires
        plain_value(n),
        plain_value(v),
    ensures
        spec_parse_entry(id, path, named_file(n, key_terminal(), v), lang, territory, current) == Some(
            named_entry(id, path, n, says_true(v)),
        ),
{
    assert(plain_key(key_terminal()));
    lemma_named_file(n, key_terminal(), v);
    lemma_says_true(v);
    assert(key_terminal() != key_keywords()) by {
        assert(key_terminal()[0] != key_keywords()[0]);
    }
    assert(key_terminal() != key_name());
    assert(key_terminal() != key_exec());
    assert(key_terminal() != key_icon());
    lemma_only_name(n, lang, territory);
}

/// A file with `Hidden=v` is left out exactly when `v` is `true` in any
/// ASCII case; otherwise its entry is read as usual.
pub proof fn law_hidden_flag(
    id: Seq<char>,
    path: Seq<char>,
    n: Seq<char>,
    v: Seq<char>,
    lang: Seq<char>,
    territory: Seq<char>,
    current: Option<Seq<char>>,
)
    requires
        plain_value(n),
        plain_value(v),
    ensures
        spec_parse_entry(id, path, named_file(n, key_hidden(), v), lang, territory, current) == (if says_true(v) {
            None
        } else {
            Some(named_entry(id, path, n, false))
        }),
{
    assert(plain_key(key_hidden()));
    lemma_named_file(n, key_hidden(), v);
    lemma_says_true(v);
    assert(key_hidden() != key_keywords());
    assert(key_hidden() != key_name());
    assert(key_hidden() != key_exec());
    assert(key_hidden() != key_icon());
    assert(key_hidden() != key_terminal());
    lemma_only_name(n, lang, territory);
}

/// A file with `NoDisplay=v` is left out exactly when `v` is `true` in any
/// ASCII case; otherwise its entry is read as usual.
pub proof fn law_no_display_flag(
    id: Seq<char>,
    path: Seq<char>,
    n: Seq<char>,
    v: Seq<char>,
    lang: Seq<char>,
    territory: Seq<char>,
    current: Option<Seq<char>>,
)
    requires
        plain_value(n),
        plain_value(v),
    ensures
        spec_parse_entry(id, path, named_file(n, key_no_display(), v), lang, territory, current) == (if says_true(
            v,
        ) {
            None
        } else {
            Some(named_entry(id, path, n, false))
        }),
{
    assert(plain_key(key_no_display()));
    lemma_named_file(n, key_no_display(), v);
    lemma_says_true(v);
    assert(key_no_display() != key_keywords()) by {
        assert(key_no_display()[0] != key_keywords()[0]);
    }
    assert(key_no_display() != key_name());
    assert(key_no_display() != key_exec());
    assert(key_no_display() != key_icon());
    assert(key_no_display() != key_terminal());
    assert(key_no_display() != key_hidden());
    lemma_only_name(n, lang, territory);
}

} // verus!
