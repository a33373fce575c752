//! Lines of a `key = value` config file.
//!
//! - Blank lines, and lines starting with `#`, `;` or `[` (after leading
//!   whitespace) are ignored.
//! - Options are `key = value`, whitespace stripped, surrounding `"…"`
//!   stripped from both sides.
//! - `include = /path/to/other.conf` names another file to read.
//! - Errors do not stop the reading of the other lines.

use vstd::prelude::*;

use crate::chars::{
    eq_ignore_ascii_case, eq_ignore_ascii_case_exec, find_char, find_char_exec, split_lines, sub_chars, trim, trim_chars,
};
use crate::numbers::{decimal, push_decimal};
use crate::text::{chars_of, string_of, text_lines, views};

verus! {

/// A non-fatal error found in a config file.
#[derive(Debug, Clone, PartialEq, Eq)]
pub struct ParseError {
    /// The file it was found in.
    pub file: String,
    /// 1-based line number; 0 when it does not come from a line.
    pub line: usize,
    pub message: String,
}

impl ParseError {
    /// `{file}: line {line}: {message}`, or `{file}: {message}` for line 0.
    pub fn to_string(&self) -> (r: String)
        ensures
            r@ == (if self.line > 0 {
                self.file@ + seq![':', ' ', 'l', 'i', 'n', 'e', ' '] + decimal(self.line as nat) + seq![':', ' ']
                    + self.message@
            } else {
                self.file@ + seq![':', ' '] + self.message@
            }),
    {
        let mut out = chars_of(self.file.as_str());
        if self.line > 0 {
            let mut mid = chars_of(": line ");
            proof {
                reveal_strlit(": line ");
            }
            out.append(&mut mid);
            let mut n = String::new();
            push_decimal(&mut n, self.line as u64);
            let mut nc = chars_of(n.as_str());
            out.append(&mut nc);
        }
        out.push(':');
        out.push(' ');
        let mut m = chars_of(self.message.as_str());
        out.append(&mut m);
        let r = string_of(out.as_slice());
        proof {
            if self.line > 0 {
                assert(r@ =~= self.file@ + seq![':', ' ', 'l', 'i', 'n', 'e', ' '] + decimal(self.line as nat) + seq![
                    ':',
                    ' ',
                ] + self.message@);
            } else {
                assert(r@ =~= self.file@ + seq![':', ' '] + self.message@);
            }
        }
        r
    }
}

/// What one line of a config file says.
#[derive(Debug, Clone, PartialEq, Eq)]
pub enum ConfigLine {
    /// A blank line or a comment.
    Skip,
    /// `key = value`.
    Option { key: String, value: String },
    /// `include = path`: another file to read.
    Include { path: String },
    /// A line that is none of these, with what is wrong with it.
    Error { message: String },
}

/// `s` without surrounding whitespace and, when it is quoted on both sides,
/// without the quotes; `None` when nothing but whitespace is left.
pub open spec fn spec_strip(s: Seq<char>) -> Option<Seq<char>> {
    let t = trim(s);
    if t.len() == 0 {
        None
    } else if t[0] == '"' && t.last() == '"' && t.len() >= 2 {
        Some(t.subrange(1, t.len() - 1))
    } else {
        Some(t)
    }
}

/// Strips a key or a value, as [`spec_strip`] says.
pub fn strip(s: &[char]) -> (r: Option<Vec<char>>)
    ensures
        r is Some <==> spec_strip(s@) is Some,
        r matches Some(v) ==> spec_strip(s@) == Some(v@),
{
    let t = trim_chars(s);
    let n = t.len();
    if n == 0 {
        None
    } else if t[0] == '"' && t[n - 1] == '"' && n >= 2 {
        Some(sub_chars(t.as_slice(), 1, n - 1))
    } else {
        Some(t)
    }
}

pub open spec fn word_include() -> Seq<char> {
    seq!['i', 'n', 'c', 'l', 'u', 'd', 'e']
}

pub open spec fn msg_missing_value() -> Seq<char> {
    seq![
        'C', 'o', 'n', 'f', 'i', 'g', ' ', 'o', 'p', 't', 'i', 'o', 'n', ' ', 'm', 'i', 's', 's', 'i', 'n', 'g', ' ',
        'v', 'a', 'l', 'u', 'e', ' ', 'i', 'n', ':', ' ',
    ]
}

pub open spec fn msg_missing_option() -> Seq<char> {
    seq![
        'M', 'i', 's', 's', 'i', 'n', 'g', ' ', 'o', 'p', 't', 'i', 'o', 'n', ' ', '(', 'l', 'i', 'n', 'e', ' ', 's',
        't', 'a', 'r', 't', 's', ' ', 'w', 'i', 't', 'h', ' ', '\'', '=', '\'', ')',
    ]
}

pub open spec fn msg_missing_key_or_value() -> Seq<char> {
    seq![
        'M', 'i', 's', 's', 'i', 'n', 'g', ' ', 'k', 'e', 'y', ' ', 'o', 'r', ' ', 'v', 'a', 'l', 'u', 'e', ' ', 'i',
        'n', ':', ' ',
    ]
}

/// The plain values of a parsed line.
pub enum LineView {
    Skip,
    Option(Seq<char>, Seq<char>),
    Include(Seq<char>),
    Error(Seq<char>),
}

impl ConfigLine {
    pub open spec fn view(&self) -> LineView {
        match self {
            ConfigLine::Skip => LineView::Skip,
            ConfigLine::Option { key, value } => LineView::Option(key@, value@),
            ConfigLine::Include { path } => LineView::Include(path@),
            ConfigLine::Error { message } => LineView::Error(message@),
        }
    }
}

/// What the line `raw` says.
pub open spec fn spec_parse_config_line(raw: Seq<char>) -> LineView {
    let line = trim(raw);
    if line.len() == 0 || line[0] == '#' || line[0] == ';' || line[0] == '[' {
        LineView::Skip
    } else {
        match find_char(line, '=') {
            None => LineView::Error(msg_missing_value() + line),
            Some(eq) => if eq == 0 {
                LineView::Error(msg_missing_option())
            } else {
                match (spec_strip(line.take(eq)), spec_strip(line.skip(eq + 1))) {
                    (Some(k), Some(v)) => if k.len() == 0 {
                        LineView::Error(msg_missing_key_or_value() + line)
                    } else if eq_ignore_ascii_case(k, word_include()) {
                        LineView::Include(v)
                    } else {
                        LineView::Option(k, v)
                    },
                    _ => LineView::Error(msg_missing_key_or_value() + line),
                }
            },
        }
    }
}

/// Reads one line of a config file, as [`spec_parse_config_line`] says.
pub fn parse_config_line(raw: &str) -> (r: ConfigLine)
    ensures
        r.view() == spec_parse_config_line(raw@),
{
    let cs = chars_of(raw);
    let line = trim_chars(cs.as_slice());
    if line.len() == 0 || line[0] == '#' || line[0] == ';' || line[0] == '[' {
        return ConfigLine::Skip;
    }
    let n = line.len();
    let eq = match find_char_exec(line.as_slice(), '=') {
        None => {
            let mut m = chars_of("Config option missing value in: ");
            proof {
                reveal_strlit("Config option missing value in: ");
            }
            let mut l = sub_chars(line.as_slice(), 0, n);
            assert(l@ =~= line@);
            m.append(&mut l);
            assert(m@ =~= msg_missing_value() + line@);
            return ConfigLine::Error { message: string_of(m.as_slice()) };
        },
        Some(eq) => eq,
    };
    if eq == 0 {
        proof {
            reveal_strlit("Missing option (line starts with '=')");
        }
        let m = chars_of("Missing option (line starts with '=')");
        assert(m@ =~= msg_missing_option());
        return ConfigLine::Error { message: string_of(m.as_slice()) };
    }
    let key_part = sub_chars(line.as_slice(), 0, eq);
    let value_part = sub_chars(line.as_slice(), eq + 1, n);
    assert(key_part@ =~= line@.take(eq as int));
    assert(value_part@ =~= line@.skip(eq + 1));
    let key = strip(key_part.as_slice());
    let value = strip(value_part.as_slice());
    match (key, value) {
        (Some(k), Some(v)) => {
            if k.len() > 0 {
                let inc_key = ['i', 'n', 'c', 'l', 'u', 'd', 'e'];
                assert(inc_key@ =~= word_include());
                if eq_ignore_ascii_case_exec(k.as_slice(), inc_key.as_slice()) {
                    return ConfigLine::Include { path: string_of(v.as_slice()) };
                }
                return ConfigLine::Option { key: string_of(k.as_slice()), value: string_of(v.as_slice()) };
            }
        },
        _ => {},
    }
    let mut m = chars_of("Missing key or value in: ");
    proof {
        reveal_strlit("Missing key or value in: ");
    }
    let mut l = sub_chars(line.as_slice(), 0, n);
    assert(l@ =~= line@);
    m.append(&mut l);
    assert(m@ =~= msg_missing_key_or_value() + line@);
    ConfigLine::Error { message: string_of(m.as_slice()) }
}

// ── A whole file ─────────────────────────────────────────────────────────────

/// The number of errors in one file after which its reading gives up.
pub const MAX_ERRORS: usize = 5;

/// What reading one config file yields, line by line.
#[derive(Debug, Clone, PartialEq, Eq)]
pub enum ConfigEntry {
    /// `key = value`.
    Option { key: String, value: String },
    /// `include = path`: another file to read at this point.
    Include { path: String },
    /// An error on the 1-based line `line`.
    Error { line: usize, message: String },
}

/// The plain values of an entry.
pub enum EntryView {
    Option(Seq<char>, Seq<char>),
    Include(Seq<char>),
    Error(int, Seq<char>),
}

impl ConfigEntry {
    pub open spec fn view(&self) -> EntryView {
        match self {
            ConfigEntry::Option { key, value } => EntryView::Option(key@, value@),
            ConfigEntry::Include { path } => EntryView::Include(path@),
            ConfigEntry::Error { line, message } => EntryView::Error(*line as int, message@),
        }
    }
}

/// The plain values of each entry.
pub open spec fn entry_views(es: Seq<ConfigEntry>) -> Seq<EntryView> {
    es.map_values(|e: ConfigEntry| e.view())
}

/// `Too many errors (> 5), giving up`.
pub open spec fn msg_too_many_errors() -> Seq<char> {
    seq![
        'T', 'o', 'o', ' ', 'm', 'a', 'n', 'y', ' ', 'e', 'r', 'r', 'o', 'r', 's', ' ', '(', '>', ' ', '5', ')', ',',
        ' ', 'g', 'i', 'v', 'i', 'n', 'g', ' ', 'u', 'p',
    ]
}

/// The entries of the lines `ls`, the first of which has number `lineno`,
/// after `errors` errors: each option, include and error in order; once
/// [`MAX_ERRORS`] errors were found, the next line gives a last error saying
/// so and the rest is not read.
pub open spec fn scan_lines(ls: Seq<Seq<char>>, lineno: int, errors: int) -> Seq<EntryView>
    decreases ls.len(),
{
    if ls.len() == 0 {
        Seq::empty()
    } else if errors >= MAX_ERRORS {
        seq![EntryView::Error(lineno, msg_too_many_errors())]
    } else {
        let rest = scan_lines(ls.drop_first(), lineno + 1, match spec_parse_config_line(ls[0]) {
            LineView::Error(_) => errors + 1,
            _ => errors,
        });
        match spec_parse_config_line(ls[0]) {
            LineView::Skip => rest,
            LineView::Option(k, v) => seq![EntryView::Option(k, v)] + rest,
            LineView::Include(p) => seq![EntryView::Include(p)] + rest,
            LineView::Error(m) => seq![EntryView::Error(lineno, m)] + rest,
        }
    }
}

/// The entries of a config file's text, as [`scan_lines`] says.
pub open spec fn spec_scan_config(content: Seq<char>) -> Seq<EntryView> {
    scan_lines(text_lines(content), 1, 0)
}

/// Reads the lines of one config file's text, as [`spec_scan_config`] says;
/// included files are not read here.
pub fn scan_config(content: &str) -> (r: Vec<ConfigEntry>)
    ensures
        entry_views(r@) == spec_scan_config(content@),
{
    let cs = chars_of(content);
    let ls = split_lines(cs.as_slice());
    let ghost l = views(ls@);
    let mut out: Vec<ConfigEntry> = Vec::new();
    let mut errors: usize = 0;
    let mut i: usize = 0;
    proof {
        assert(l.skip(0) =~= l);
        assert(entry_views(out@) + scan_lines(l, 1, 0) =~= scan_lines(l, 1, 0));
    }
    while i < ls.len()
        invariant
            i <= ls@.len(),
            l == views(ls@),
            l == text_lines(content@),
            errors <= MAX_ERRORS,
            entry_views(out@) + scan_lines(l.skip(i as int), i + 1, errors as int) == spec_scan_config(content@),
        decreases ls@.len() - i,
    {
        let ghost before = entry_views(out@);
        let ghost rest = l.skip(i as int);
        proof {
            assert(rest[0] == ls@[i as int]@);
            assert(rest.drop_first() =~= l.skip(i + 1));
        }
        if errors >= MAX_ERRORS {
            let m = string_of(['T', 'o', 'o', ' ', 'm', 'a', 'n', 'y', ' ', 'e', 'r', 'r', 'o', 'r', 's', ' ', '(', '>',
                ' ', '5', ')', ',', ' ', 'g', 'i', 'v', 'i', 'n', 'g', ' ', 'u', 'p'].as_slice());
            assert(m@ =~= msg_too_many_errors());
            out.push(ConfigEntry::Error { line: i + 1, message: m });
            assert(entry_views(out@) =~= before + seq![EntryView::Error(i + 1, msg_too_many_errors())]);
            return out;
        }
        let raw = string_of(ls[i].as_slice());
        let pl = parse_config_line(raw.as_str());
        match pl {
            ConfigLine::Skip => {},
            ConfigLine::Option { key, value } => {
                let e = ConfigEntry::Option { key, value };
                out.push(e);
                assert(entry_views(out@) =~= before.push(e.view()));
                assert(before.push(e.view()) + scan_lines(l.skip(i + 1), i + 2, errors as int) =~= before + (
                seq![e.view()] + scan_lines(l.skip(i + 1), i + 2, errors as int)));
            },
            ConfigLine::Include { path } => {
                let e = ConfigEntry::Include { path };
                out.push(e);
                assert(entry_views(out@) =~= before.push(e.view()));
                assert(before.push(e.view()) + scan_lines(l.skip(i + 1), i + 2, errors as int) =~= before + (
                seq![e.view()] + scan_lines(l.skip(i + 1), i + 2, errors as int)));
            },
            ConfigLine::Error { message } => {
                let e = ConfigEntry::Error { line: i + 1, message };
                out.push(e);
                assert(entry_views(out@) =~= before.push(e.view()));
                assert(before.push(e.view()) + scan_lines(l.skip(i + 1), i + 2, errors + 1) =~= before + (
                seq![e.view()] + scan_lines(l.skip(i + 1), i + 2, errors + 1)));
                errors = errors + 1;
            },
        }
        i = i + 1;
    }
    assert(l.skip(i as int) =~= Seq::<Seq<char>>::empty());
    assert(entry_views(out@) + Seq::<EntryView>::empty() =~= entry_views(out@));
    out
}

} // verus!
