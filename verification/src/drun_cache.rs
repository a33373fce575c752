//! The text of the cache of desktop entries.
//!
//! The first line is a header that names the format; then one line per
//! entry: its seven fields separated by NUL characters,
//! `{id}\0{name}\0{path}\0{keywords}\0{exec}\0{icon}\0{terminal}` with
//! `terminal` written `1` or `0`.

use vstd::prelude::*;

use crate::chars::{find_char, find_char_exec, lemma_find_char_from, split_lines, sub_chars, trim_end, trim_end_chars};
use crate::drun::{DesktopEntry, DesktopEntryView};
use crate::text::{chars_of, lemma_lines_from_line, string_of, strip_cr, text_lines, views};

verus! {

/// The header that opens a cache file.
pub open spec fn cache_header() -> Seq<char> {
    seq!['#', 't', 'o', 'f', 'i', '-', 'r', 's', '-', 'd', 'r', 'u', 'n', '-', 'v', '1']
}

/// The line that holds one entry, without its line feed.
pub open spec fn record_line(e: DesktopEntryView) -> Seq<char> {
    e.id + seq!['\0'] + e.name + seq!['\0'] + e.path + seq!['\0'] + e.keywords + seq!['\0'] + e.exec_line
        + seq!['\0'] + e.icon + seq!['\0'] + (if e.terminal {
        seq!['1']
    } else {
        seq!['0']
    })
}

/// The lines of the entries, each ended by a line feed.
pub open spec fn records_text(es: Seq<DesktopEntryView>) -> Seq<char>
    decreases es.len(),
{
    if es.len() == 0 {
        Seq::empty()
    } else {
        record_line(es[0]) + seq!['\n'] + records_text(es.drop_first())
    }
}

/// The whole text of a cache holding `es`.
pub open spec fn cache_text(es: Seq<DesktopEntryView>) -> Seq<char> {
    cache_header() + seq!['\n'] + records_text(es)
}

/// `l` cut at its first `n - 1` NUL characters (`str::splitn(n, '\0')`).
pub open spec fn split_fields(l: Seq<char>, n: nat) -> Seq<Seq<char>>
    decreases n,
{
    if n <= 1 {
        seq![l]
    } else {
        match find_char(l, '\0') {
            Some(i) => seq![l.take(i)] + split_fields(l.skip(i + 1), (n - 1) as nat),
            None => seq![l],
        }
    }
}

/// The entry a cache line holds, or `None` when it has fewer than seven fields.
pub open spec fn record_of(l: Seq<char>) -> Option<DesktopEntryView> {
    let f = split_fields(l, 7);
    if f.len() < 7 {
        None
    } else {
        Some(
            DesktopEntryView {
                id: f[0],
                name: f[1],
                path: f[2],
                keywords: f[3],
                exec_line: f[4],
                icon: f[5],
                terminal: f[6] == seq!['1'],
            },
        )
    }
}

/// The entries that the lines `ls` hold, lines with too few fields skipped.
pub open spec fn records_of(ls: Seq<Seq<char>>) -> Seq<DesktopEntryView>
    decreases ls.len(),
{
    if ls.len() == 0 {
        Seq::empty()
    } else {
        (match record_of(ls[0]) {
            Some(e) => seq![e],
            None => Seq::empty(),
        }) + records_of(ls.drop_first())
    }
}

/// The first line of `t`, with its line feed.
pub open spec fn header_line(t: Seq<char>) -> Seq<char> {
    match find_char(t, '\n') {
        Some(i) => t.take(i + 1),
        None => t,
    }
}

/// What follows the first line of `t`.
pub open spec fn after_header(t: Seq<char>) -> Seq<char> {
    match find_char(t, '\n') {
        Some(i) => t.skip(i + 1),
        None => Seq::empty(),
    }
}

/// The entries of a cache text, or `None` when its first line, without
/// trailing whitespace, is not the header (a cache of another format).
pub open spec fn spec_parse_cache(t: Seq<char>) -> Option<Seq<DesktopEntryView>> {
    if trim_end(header_line(t)) == cache_header() {
        Some(records_of(text_lines(after_header(t))))
    } else {
        None
    }
}

/// The plain values of each desktop entry.
pub open spec fn entry_views(v: Seq<DesktopEntry>) -> Seq<DesktopEntryView> {
    v.map_values(|e: DesktopEntry| e.view())
}

/// Appends the characters of `s` to `out`.
fn push_str(out: &mut Vec<char>, s: &str)
    ensures
        final(out)@ == old(out)@ + s@,
{
    let mut cs = chars_of(s);
    out.append(&mut cs);
}

/// The text of a cache holding `entries`, as [`cache_text`] says.
pub fn format_cache(entries: &[DesktopEntry]) -> (t: String)
    ensures
        t@ == cache_text(entry_views(entries@)),
{
    let mut out: Vec<char> = Vec::new();
    proof {
        reveal_strlit("#tofi-rs-drun-v1");
    }
    push_str(&mut out, "#tofi-rs-drun-v1");
    out.push('\n');
    let ghost es = entry_views(entries@);
    proof {
        assert(out@ =~= cache_header() + seq!['\n']);
        assert(es.skip(0) =~= es);
    }
    let mut i: usize = 0;
    while i < entries.len()
        invariant
            i <= entries@.len(),
            es == entry_views(entries@),
            out@ + records_text(es.skip(i as int)) == cache_text(es),
        decreases entries@.len() - i,
    {
        let ghost before = out@;
        let e = &entries[i];
        push_str(&mut out, e.id.as_str());
        out.push('\0');
        push_str(&mut out, e.name.as_str());
        out.push('\0');
        push_str(&mut out, e.path.as_str());
        out.push('\0');
        push_str(&mut out, e.keywords.as_str());
        out.push('\0');
        push_str(&mut out, e.exec_line.as_str());
        out.push('\0');
        push_str(&mut out, e.icon.as_str());
        out.push('\0');
        out.push(if e.terminal { '1' } else { '0' });
        out.push('\n');
        proof {
            assert(es[i as int] == e.view());
            assert(out@ =~= before + record_line(es[i as int]) + seq!['\n']);
            assert(es.skip(i as int)[0] == es[i as int]);
            assert(es.skip(i as int).drop_first() =~= es.skip(i + 1));
            assert(before + records_text(es.skip(i as int)) =~= out@ + records_text(es.skip(i + 1)));
        }
        i = i + 1;
    }
    proof {
        assert(es.skip(i as int) =~= Seq::<DesktopEntryView>::empty());
        assert(out@ + Seq::<char>::empty() =~= out@);
    }
    string_of(out.as_slice())
}

/// `l` cut at its first `n - 1` NUL characters, as [`split_fields`] says.
fn split_fields_exec(l: &[char], n: usize) -> (r: Vec<Vec<char>>)
    ensures
        views(r@) == split_fields(l@, n as nat),
    decreases n,
{
    if n <= 1 {
        let mut r: Vec<Vec<char>> = Vec::new();
        r.push(sub_chars(l, 0, l.len()));
        assert(l@.subrange(0, l@.len() as int) =~= l@);
        assert(views(r@) =~= seq![l@]);
        return r;
    }
    match find_char_exec(l, '\0') {
        Some(i) => {
            let len = l.len();
            let head = sub_chars(l, 0, i);
            let tail = sub_chars(l, i + 1, len);
            let rest = split_fields_exec(tail.as_slice(), n - 1);
            let mut r: Vec<Vec<char>> = Vec::new();
            r.push(head);
            let ghost rv = rest@;
            let mut rest = rest;
            r.append(&mut rest);
            proof {
                assert(head@ =~= l@.take(i as int));
                assert(tail@ =~= l@.skip(i + 1));
                assert(views(r@) =~= seq![l@.take(i as int)] + views(rv));
            }
            r
        },
        None => {
            let mut r: Vec<Vec<char>> = Vec::new();
            r.push(sub_chars(l, 0, l.len()));
            assert(l@.subrange(0, l@.len() as int) =~= l@);
            assert(views(r@) =~= seq![l@]);
            r
        },
    }
}

/// Whether the field is exactly `1`.
fn is_one(f: &[char]) -> (r: bool)
    ensures
        r == (f@ == seq!['1']),
{
    let r = f.len() == 1 && f[0] == '1';
    proof {
        if r {
            assert(f@ =~= seq!['1']);
        }
    }
    r
}

/// The entries of a cache text, or `None` when it does not start with the
/// header, as [`spec_parse_cache`] says.
pub fn parse_cache(text: &str) -> (r: Option<Vec<DesktopEntry>>)
    ensures
        match spec_parse_cache(text@) {
            Some(es) => r matches Some(v) && entry_views(v@) == es,
            None => r is None,
        },
{
    let cs = chars_of(text);
    let n = cs.len();
    let (first, rest) = match find_char_exec(cs.as_slice(), '\n') {
        Some(i) => (sub_chars(cs.as_slice(), 0, i + 1), sub_chars(cs.as_slice(), i + 1, n)),
        None => (sub_chars(cs.as_slice(), 0, n), Vec::new()),
    };
    proof {
        match find_char(text@, '\n') {
            Some(i) => {
                assert(first@ =~= header_line(text@));
                assert(rest@ =~= after_header(text@));
            },
            None => {
                assert(first@ =~= header_line(text@));
                assert(rest@ =~= after_header(text@));
            },
        }
    }
    let head = trim_end_chars(first.as_slice());
    let header = ['#', 't', 'o', 'f', 'i', '-', 'r', 's', '-', 'd', 'r', 'u', 'n', '-', 'v', '1'];
    assert(header@ =~= cache_header());
    if !crate::chars::eq_chars(head.as_slice(), header.as_slice()) {
        return None;
    }
    let lines = split_lines(rest.as_slice());
    let ghost ls = views(lines@);
    let mut out: Vec<DesktopEntry> = Vec::new();
    let mut i: usize = 0;
    proof {
        assert(ls.skip(0) =~= ls);
    }
    while i < lines.len()
        invariant
            i <= lines@.len(),
            ls == views(lines@),
            records_of(ls) == entry_views(out@) + records_of(ls.skip(i as int)),
        decreases lines@.len() - i,
    {
        let ghost before = out@;
        let f = split_fields_exec(lines[i].as_slice(), 7);
        proof {
            assert(ls[i as int] == lines@[i as int]@);
            assert(ls.skip(i as int)[0] == ls[i as int]);
            assert(ls.skip(i as int).drop_first() =~= ls.skip(i + 1));
        }
        if f.len() >= 7 {
            proof {
                assert(forall|k: int| 0 <= k < 7 ==> views(f@)[k] == f@[k]@);
            }
            let e = DesktopEntry {
                id: string_of(f[0].as_slice()),
                name: string_of(f[1].as_slice()),
                path: string_of(f[2].as_slice()),
                keywords: string_of(f[3].as_slice()),
                exec_line: string_of(f[4].as_slice()),
                icon: string_of(f[5].as_slice()),
                terminal: is_one(f[6].as_slice()),
            };
            out.push(e);
            proof {
                assert(record_of(ls[i as int]) == Some(e.view()));
                assert(entry_views(out@) =~= entry_views(before).push(e.view()));
                assert(entry_views(before) + (seq![e.view()] + records_of(ls.skip(i + 1))) =~= entry_views(out@)
                    + records_of(ls.skip(i + 1)));
            }
        } else {
            proof {
                assert(record_of(ls[i as int]) is None);
                assert(Seq::<DesktopEntryView>::empty() + records_of(ls.skip(i + 1)) =~= records_of(ls.skip(i + 1)));
            }
        }
        i = i + 1;
    }
    proof {
        assert(ls.skip(i as int) =~= Seq::<Seq<char>>::empty());
        assert(entry_views(out@) + Seq::<DesktopEntryView>::empty() =~= entry_views(out@));
    }
    Some(out)
}

// ── Laws ─────────────────────────────────────────────────────────────────────

/// Whether a field can be stored in a cache line: it holds neither a NUL
/// nor a line feed.
pub open spec fn storable_field(f: Seq<char>) -> bool {
    !f.contains('\0') && !f.contains('\n')
}

/// Whether every field of the entry can be stored.
pub open spec fn storable_entry(e: DesktopEntryView) -> bool {
    &&& storable_field(e.id)
    &&& storable_field(e.name)
    &&& storable_field(e.path)
    &&& storable_field(e.keywords)
    &&& storable_field(e.exec_line)
    &&& storable_field(e.icon)
}

proof fn lemma_find_nul(a: Seq<char>, b: Seq<char>)
    requires
        !a.contains('\0'),
    ensures
        find_char(a + seq!['\0'] + b, '\0') == Some(a.len() as int),
{
    let l = a + seq!['\0'] + b;
    lemma_find_char_from(l, '\0', 0);
    assert(l[a.len() as int] == '\0');
    match find_char(l, '\0') {
        Some(k) => {
            if k < a.len() {
                assert(l[k] == a[k]);
            }
        },
        None => {},
    }
}

proof fn lemma_no_nul(a: Seq<char>)
    requires
        !a.contains('\0'),
    ensures
        find_char(a, '\0') is None,
{
    lemma_find_char_from(a, '\0', 0);
    match find_char(a, '\0') {
        Some(k) => {
            assert(a[k] == '\0');
        },
        None => {},
    }
}

/// The fields of one `field \0 rest` piece.
proof fn lemma_split_step(a: Seq<char>, rest: Seq<char>, n: nat)
    requires
        !a.contains('\0'),
        n > 1,
    ensures
        split_fields(a + seq!['\0'] + rest, n) == seq![a] + split_fields(rest, (n - 1) as nat),
{
    let l = a + seq!['\0'] + rest;
    lemma_find_nul(a, rest);
    assert(l.take(a.len() as int) =~= a);
    assert(l.skip(a.len() as int + 1) =~= rest);
}

/// A stored entry's line reads back as the entry.
proof fn lemma_record_roundtrip(e: DesktopEntryView)
    requires
        storable_entry(e),
    ensures
        record_of(record_line(e)) == Some(e),
{
    let t: Seq<char> = if e.terminal {
        seq!['1']
    } else {
        seq!['0']
    };
    assert(!t.contains('\0'));
    lemma_no_nul(t);
    let r6 = e.icon + seq!['\0'] + t;
    let r5 = e.exec_line + seq!['\0'] + r6;
    let r4 = e.keywords + seq!['\0'] + r5;
    let r3 = e.path + seq!['\0'] + r4;
    let r2 = e.name + seq!['\0'] + r3;
    let r1 = e.id + seq!['\0'] + r2;
    assert(record_line(e) =~= r1);
    lemma_split_step(e.id, r2, 7);
    lemma_split_step(e.name, r3, 6);
    lemma_split_step(e.path, r4, 5);
    lemma_split_step(e.keywords, r5, 4);
    lemma_split_step(e.exec_line, r6, 3);
    lemma_split_step(e.icon, t, 2);
    assert(split_fields(t, 1) == seq![t]);
    let f = split_fields(r1, 7);
    assert(f =~= seq![e.id, e.name, e.path, e.keywords, e.exec_line, e.icon, t]);
    if e.terminal {
        assert(t =~= seq!['1']);
    } else {
        assert(t != seq!['1']) by {
            assert(t[0] == '0');
        }
    }
}

/// The lines of the records text are the record lines.
proof fn lemma_records_lines(es: Seq<DesktopEntryView>)
    requires
        forall|i: int| 0 <= i < es.len() ==> storable_entry(#[trigger] es[i]),
    ensures
        records_of(text_lines(records_text(es))) == es,
    decreases es.len(),
{
    if es.len() == 0 {
        assert(text_lines(Seq::<char>::empty()) =~= Seq::<Seq<char>>::empty());
    } else {
        let e = es[0];
        let w = record_line(e);
        let rest = es.drop_first();
        assert(storable_entry(e));
        assert forall|i: int| 0 <= i < w.len() implies w[i] != '\n' by {
            if w[i] == '\n' {
                lemma_line_has_no_feed(e, i);
            }
        }
        assert(records_text(es) =~= w + seq!['\n'] + records_text(rest));
        lemma_lines_from_line(w, records_text(rest), Seq::empty());
        assert(Seq::<char>::empty() + w =~= w);
        assert(strip_cr(w) == w) by {
            assert(w.last() == '1' || w.last() == '0');
        }
        let ls = seq![w] + text_lines(records_text(rest));
        assert(ls[0] == w);
        assert(ls.drop_first() =~= text_lines(records_text(rest)));
        lemma_record_roundtrip(e);
        assert forall|i: int| 0 <= i < rest.len() implies storable_entry(#[trigger] rest[i]) by {
            assert(rest[i] == es[i + 1]);
        }
        lemma_records_lines(rest);
        assert(seq![e] + rest =~= es);
    }
}

/// A record line holds no line feed.
proof fn lemma_line_has_no_feed(e: DesktopEntryView, i: int)
    requires
        storable_entry(e),
        0 <= i < record_line(e).len(),
    ensures
        record_line(e)[i] != '\n',
{
    let t: Seq<char> = if e.terminal {
        seq!['1']
    } else {
        seq!['0']
    };
    let w = record_line(e);
    if w[i] == '\n' {
        assert(!t.contains('\n'));
        let a = e.id.len() as int;
        let b = a + 1 + e.name.len();
        let c = b + 1 + e.path.len();
        let d = c + 1 + e.keywords.len();
        let f = d + 1 + e.exec_line.len();
        let g = f + 1 + e.icon.len();
        if i < a {
            assert(w[i] == e.id[i]);
            assert(e.id.contains('\n'));
        } else if i == a {
        } else if i < b {
            assert(w[i] == e.name[i - a - 1]);
            assert(e.name.contains('\n'));
        } else if i == b {
        } else if i < c {
            assert(w[i] == e.path[i - b - 1]);
            assert(e.path.contains('\n'));
        } else if i == c {
        } else if i < d {
            assert(w[i] == e.keywords[i - c - 1]);
            assert(e.keywords.contains('\n'));
        } else if i == d {
        } else if i < f {
            assert(w[i] == e.exec_line[i - d - 1]);
            assert(e.exec_line.contains('\n'));
        } else if i == f {
        } else if i < g {
            assert(w[i] == e.icon[i - f - 1]);
            assert(e.icon.contains('\n'));
        } else if i == g {
        } else {
            assert(w[i] == t[i - g - 1]);
        }
    }
}

/// What [`format_cache`] writes, [`parse_cache`] reads back, entry by entry,
/// as long as no field holds a NUL or a line feed.
pub proof fn law_cache_roundtrip(es: Seq<DesktopEntryView>)
    requires
        forall|i: int| 0 <= i < es.len() ==> storable_entry(#[trigger] es[i]),
    ensures
        spec_parse_cache(cache_text(es)) == Some(es),
{
    let hl = cache_header() + seq!['\n'];
    assert(hl.drop_last() =~= cache_header());
    assert(trim_end(hl) == trim_end(cache_header()));
    assert(trim_end(cache_header()) == cache_header());
    let t = cache_text(es);
    let h = cache_header();
    lemma_find_char_from(t, '\n', 0);
    assert(t[h.len() as int] == '\n');
    match find_char(t, '\n') {
        Some(k) => {
            if k < h.len() {
                assert(t[k] == h[k]);
            }
            assert(k == h.len());
        },
        None => {},
    }
    assert(header_line(t) =~= h + seq!['\n']);
    assert(after_header(t) =~= records_text(es));
    lemma_records_lines(es);
}

/// Whether a cache written at `cache_mtime` is stale: some directory it was
/// built from was modified after it. Times are nanoseconds from the Unix
/// epoch, negative before it.
pub open spec fn spec_cache_is_stale(dir_mtimes: Seq<i128>, cache_mtime: i128) -> bool {
    exists|i: int| 0 <= i < dir_mtimes.len() && #[trigger] dir_mtimes[i] > cache_mtime
}

/// Whether a cache is stale, as [`spec_cache_is_stale`] says; used for both
/// the desktop-entry cache and the command cache.
pub fn cache_is_stale(dir_mtimes: &[i128], cache_mtime: i128) -> (r: bool)
    ensures
        r == spec_cache_is_stale(dir_mtimes@, cache_mtime),
{
    let mut i: usize = 0;
    while i < dir_mtimes.len()
        invariant
            i <= dir_mtimes@.len(),
            forall|k: int| 0 <= k < i ==> dir_mtimes@[k] <= cache_mtime,
        decreases dir_mtimes@.len() - i,
    {
        if dir_mtimes[i] > cache_mtime {
            return true;
        }
        i = i + 1;
    }
    false
}

} // verus!
