//! Visual values of a theme: dimensions, anchors, cursor kinds, colors, and
//! where a theme file is looked up.

use vstd::prelude::*;

use crate::chars::{trim, trim_chars};
use crate::color::{parse_hex, parse_hex_chars, ColorBytes};
use crate::matching::MatchingAlgorithm;
use crate::numbers::{parse_unsigned, parse_unsigned_chars};
use crate::text::{chars_of, str_utf8_len, string_of, utf8_len};

verus! {

/// A length in pixels, or a percentage of the output's size.
#[derive(Debug, Clone, Copy, PartialEq, Eq, Structural)]
pub struct UnitValue {
    pub value: u32,
    pub is_percent: bool,
}

impl UnitValue {
    /// `v` pixels.
    pub fn pixels(v: u32) -> (r: Self)
        ensures
            r == (UnitValue { value: v, is_percent: false }),
    {
        UnitValue { value: v, is_percent: false }
    }

    /// `v` percent.
    pub fn percent(v: u32) -> (r: Self)
        ensures
            r == (UnitValue { value: v, is_percent: true }),
    {
        UnitValue { value: v, is_percent: true }
    }
}

/// A length resolved against the output's size `dim`: a percentage of it,
/// rounded down, or the pixels as they are.
pub open spec fn spec_px(uv: UnitValue, dim: u32) -> int {
    if uv.is_percent {
        uv.value * dim / 100
    } else {
        uv.value as int
    }
}

/// Resolves `uv` against the output's size `dim` in pixels, as [`spec_px`]
/// says.
pub fn px(uv: &UnitValue, dim: u32) -> (r: u32)
    requires
        uv.is_percent ==> uv.value * dim <= u32::MAX,
    ensures
        r == spec_px(*uv, dim),
{
    if uv.is_percent {
        uv.value * dim / 100
    } else {
        uv.value
    }
}

/// Per-side sizes.
#[derive(Debug, Clone, Copy, PartialEq, Eq, Structural)]
pub struct Directional {
    pub top: u32,
    pub right: u32,
    pub bottom: u32,
    pub left: u32,
}

impl Default for Directional {
    fn default() -> (r: Self)
        ensures
            r == (Directional { top: 0, right: 0, bottom: 0, left: 0 }),
    {
        Directional { top: 0, right: 0, bottom: 0, left: 0 }
    }
}

/// Where the window sits on the output.
#[derive(Debug, Clone, Copy, PartialEq, Eq, Structural)]
pub enum Anchor {
    TopLeft,
    Top,
    TopRight,
    Right,
    BottomRight,
    Bottom,
    BottomLeft,
    Left,
    Center,
}

/// The shape of the text cursor.
#[derive(Debug, Clone, Copy, PartialEq, Eq, Structural)]
pub enum CursorKind {
    Bar,
    Block,
    Underscore,
}

/// A dimension as a theme file writes it: `"45%"`, `"100"` or `100`.
#[derive(Debug, Clone)]
pub enum Dim {
    Str(String),
    Int(u32),
}

/// A theme file: every value optional, unset meaning "use the default".
#[derive(Debug, Default, Clone)]
pub struct Theme {
    pub prompt: PromptSection,
    pub results: ResultsSection,
    pub text: TextSection,
    pub font: FontSection,
    pub window: WindowSection,
    pub cursor: CursorSection,
    pub input: InputSection,
}

/// `[prompt]`.
#[derive(Debug, Default, Clone)]
pub struct PromptSection {
    pub text: Option<String>,
    pub padding: Option<u32>,
}

/// `[results]`.
#[derive(Debug, Default, Clone)]
pub struct ResultsSection {
    pub count: Option<u32>,
    pub spacing: Option<u32>,
    pub mode: Option<String>,
}

/// `[text]`.
#[derive(Debug, Default, Clone)]
pub struct TextSection {
    pub prompt: Option<String>,
    pub color: Option<String>,
    pub prompt_color: Option<String>,
    pub input_color: Option<String>,
    pub match_color: Option<String>,
    pub selection_color: Option<String>,
    pub selection_match_color: Option<String>,
}

/// `[font]`.
#[derive(Debug, Default, Clone)]
pub struct FontSection {
    pub name: Option<String>,
    pub size: Option<u32>,
    pub features: Option<String>,
    pub variations: Option<String>,
    pub hint: Option<bool>,
}

/// `[window]`.
#[derive(Debug, Default, Clone)]
pub struct WindowSection {
    pub anchor: Option<String>,
    pub margin_top: Option<u32>,
    pub margin_bottom: Option<u32>,
    pub margin_left: Option<u32>,
    pub margin_right: Option<u32>,
    pub width: Option<Dim>,
    pub height: Option<Dim>,
    pub background_color: Option<String>,
    pub outline_width: Option<u32>,
    pub outline_color: Option<String>,
    pub border_width: Option<u32>,
    pub border_color: Option<String>,
    pub corner_radius: Option<u32>,
    pub padding_top: Option<Dim>,
    pub padding_bottom: Option<Dim>,
    pub padding_left: Option<Dim>,
    pub padding_right: Option<Dim>,
    pub clip_to_padding: Option<bool>,
    pub scale: Option<bool>,
}

/// `[cursor]`.
#[derive(Debug, Default, Clone)]
pub struct CursorSection {
    pub hide: Option<bool>,
}

/// `[input]`.
#[derive(Debug, Default, Clone)]
pub struct InputSection {
    pub cursor: Option<bool>,
    pub cursor_style: Option<String>,
    pub cursor_color: Option<String>,
    pub cursor_background: Option<String>,
    pub cursor_corner_radius: Option<u32>,
    pub cursor_thickness: Option<u32>,
    pub hide: Option<bool>,
    pub hidden_character: Option<String>,
}

/// `s` without one trailing `%`, when it ends with one.
pub open spec fn strip_percent(s: Seq<char>) -> Option<Seq<char>> {
    if s.len() > 0 && s.last() == '%' {
        Some(s.drop_last())
    } else {
        None
    }
}

/// The unit value of a dimension: a string ending in `%` is a percentage,
/// another string a number of pixels; text that is not a number gives 0 pixels.
pub open spec fn spec_dim_to_unit(d: Dim) -> UnitValue {
    match d {
        Dim::Int(n) => UnitValue { value: n, is_percent: false },
        Dim::Str(s) => match strip_percent(s@) {
            Some(p) => match parse_unsigned(trim(p), u32::MAX as int) {
                Some(v) => UnitValue { value: v as u32, is_percent: true },
                None => UnitValue { value: 0, is_percent: false },
            },
            None => match parse_unsigned(trim(s@), u32::MAX as int) {
                Some(v) => UnitValue { value: v as u32, is_percent: false },
                None => UnitValue { value: 0, is_percent: false },
            },
        },
    }
}

/// The unit value of a dimension, as [`spec_dim_to_unit`] says.
pub fn dim_to_unit(d: &Dim) -> (r: UnitValue)
    ensures
        r == spec_dim_to_unit(*d),
{
    match d {
        Dim::Int(n) => UnitValue::pixels(*n),
        Dim::Str(s) => {
            let cs = chars_of(s.as_str());
            let n = cs.len();
            if n > 0 && cs[n - 1] == '%' {
                let mut p = cs;
                p.pop();
                assert(p@ =~= s@.drop_last());
                let t = trim_chars(p.as_slice());
                match parse_unsigned_chars(t.as_slice(), 0xFFFF_FFFF) {
                    Some(v) => UnitValue::percent(v as u32),
                    None => UnitValue::pixels(0),
                }
            } else {
                let t = trim_chars(cs.as_slice());
                match parse_unsigned_chars(t.as_slice(), 0xFFFF_FFFF) {
                    Some(v) => UnitValue::pixels(v as u32),
                    None => UnitValue::pixels(0),
                }
            }
        },
    }
}

/// Whether every character of `s` is ASCII.
pub open spec fn all_ascii(s: Seq<char>) -> bool {
    forall|i: int| 0 <= i < s.len() ==> (#[trigger] s[i] as u32) < 0x80
}

/// The digits after the `#` of a color written `#RRGGBB` or `#RRGGBBAA`
/// (surrounding whitespace ignored), when it is written so.
pub open spec fn hash_digits(s: Seq<char>) -> Option<Seq<char>> {
    let t = trim(s);
    if t.len() > 0 && t[0] == '#' {
        Some(t.drop_first())
    } else {
        None
    }
}

/// The color of `#RRGGBB` or `#RRGGBBAA`, each pair of hexadecimal digits one
/// byte; `None` when the digits are not six or eight ASCII hexadecimal digits.
pub open spec fn spec_parse_hex_color(s: Seq<char>) -> Option<ColorBytes> {
    match hash_digits(s) {
        None => None,
        Some(h) => {
            if !(utf8_len(h) == 6 || utf8_len(h) == 8) || !all_ascii(h) {
                None
            } else {
                let r = parse_hex(h.subrange(0, 2), 255);
                let g = parse_hex(h.subrange(2, 4), 255);
                let b = parse_hex(h.subrange(4, 6), 255);
                let a = if h.len() == 8 {
                    parse_hex(h.subrange(6, 8), 255)
                } else {
                    Some(255)
                };
                if r is Some && g is Some && b is Some && a is Some {
                    Some(
                        ColorBytes {
                            r: r->0 as u8,
                            g: g->0 as u8,
                            b: b->0 as u8,
                            a: a->0 as u8,
                        },
                    )
                } else {
                    None
                }
            }
        },
    }
}

/// Characters below `0x80` take one byte each.
proof fn lemma_ascii_bytes(s: Seq<char>)
    requires
        all_ascii(s),
    ensures
        utf8_len(s) == s.len(),
    decreases s.len(),
{
    if s.len() > 0 {
        let d = s.drop_last();
        assert(all_ascii(d)) by {
            assert forall|i: int| 0 <= i < d.len() implies (#[trigger] d[i] as u32) < 0x80 by {
                assert(d[i] == s[i]);
            }
        }
        lemma_ascii_bytes(d);
        crate::text::lemma_encode_utf8_push(d, s.last());
        assert(d.push(s.last()) =~= s);
        assert((s.last() as u32) < 0x80);
    }
}

/// Whether the characters of `s` are all ASCII.
fn is_all_ascii(s: &[char]) -> (r: bool)
    ensures
        r == all_ascii(s@),
{
    let mut i: usize = 0;
    while i < s.len()
        invariant
            i <= s@.len(),
            forall|j: int| 0 <= j < i ==> (#[trigger] s@[j] as u32) < 0x80,
        decreases s@.len() - i,
    {
        if (s[i] as u32) >= 0x80 {
            return false;
        }
        i = i + 1;
    }
    true
}

/// One byte written as two characters of hexadecimal text.
fn parse_pair(h: &[char], at: usize) -> (r: Option<u8>)
    requires
        at + 2 <= h@.len(),
    ensures
        r is Some <==> parse_hex(h@.subrange(at as int, at + 2), 255) is Some,
        r matches Some(v) ==> parse_hex(h@.subrange(at as int, at + 2), 255) == Some(v as int),
{
    let pair = [h[at], h[at + 1]];
    assert(pair@ =~= h@.subrange(at as int, at + 2));
    match parse_hex_chars(pair.as_slice(), 255) {
        Some(v) => Some(v as u8),
        None => None,
    }
}

/// Reads a color written `#RRGGBB` or `#RRGGBBAA`; anything else gives `None`.
pub fn parse_hex_color(s: &str) -> (r: Option<ColorBytes>)
    ensures
        r == spec_parse_hex_color(s@),
{
    let cs = chars_of(s);
    let t = trim_chars(cs.as_slice());
    if t.len() == 0 || t[0] != '#' {
        return None;
    }
    let mut h: Vec<char> = Vec::new();
    let mut i: usize = 1;
    while i < t.len()
        invariant
            1 <= i <= t@.len(),
            h@ == t@.subrange(1, i as int),
        decreases t@.len() - i,
    {
        h.push(t[i]);
        assert(h@ =~= t@.subrange(1, i + 1));
        i = i + 1;
    }
    assert(h@ =~= t@.drop_first());
    let hs = string_of(h.as_slice());
    let n = str_utf8_len(hs.as_str());
    if !(n == 6 || n == 8) || !is_all_ascii(h.as_slice()) {
        return None;
    }
    proof {
        lemma_ascii_bytes(h@);
    }
    let r = parse_pair(h.as_slice(), 0);
    let g = parse_pair(h.as_slice(), 2);
    let b = parse_pair(h.as_slice(), 4);
    let a = if n == 8 {
        parse_pair(h.as_slice(), 6)
    } else {
        Some(255u8)
    };
    match (r, g, b, a) {
        (Some(r), Some(g), Some(b), Some(a)) => Some(ColorBytes { r, g, b, a }),
        _ => None,
    }
}

/// `str::to_lowercase`: the full Unicode lowercase mapping of a string.
pub uninterp spec fn spec_str_lowercase(s: Seq<char>) -> Seq<char>;

/// `str::to_lowercase`, which lowercases by the Unicode tables, with the
/// special rule for a final capital sigma; its result is named, not described.
#[verifier::external_body]
fn str_lowercase(s: &str) -> (r: String)
    ensures
        r@ == spec_str_lowercase(s@),
{
    s.to_lowercase()
}

/// `s` with every `-` replaced by `_`.
pub open spec fn dashes_to_underscores(s: Seq<char>) -> Seq<char> {
    s.map_values(|c: char| if c == '-' { '_' } else { c })
}

pub open spec fn word_top_left() -> Seq<char> { seq!['t', 'o', 'p', '_', 'l', 'e', 'f', 't'] }
pub open spec fn word_top() -> Seq<char> { seq!['t', 'o', 'p'] }
pub open spec fn word_top_right() -> Seq<char> { seq!['t', 'o', 'p', '_', 'r', 'i', 'g', 'h', 't'] }
pub open spec fn word_right() -> Seq<char> { seq!['r', 'i', 'g', 'h', 't'] }
pub open spec fn word_bottom_right() -> Seq<char> {
    seq!['b', 'o', 't', 't', 'o', 'm', '_', 'r', 'i', 'g', 'h', 't']
}
pub open spec fn word_bottom() -> Seq<char> { seq!['b', 'o', 't', 't', 'o', 'm'] }
pub open spec fn word_bottom_left() -> Seq<char> { seq!['b', 'o', 't', 't', 'o', 'm', '_', 'l', 'e', 'f', 't'] }
pub open spec fn word_left() -> Seq<char> { seq!['l', 'e', 'f', 't'] }
pub open spec fn word_block() -> Seq<char> { seq!['b', 'l', 'o', 'c', 'k'] }
pub open spec fn word_underscore() -> Seq<char> { seq!['u', 'n', 'd', 'e', 'r', 's', 'c', 'o', 'r', 'e'] }
pub open spec fn word_fuzzy() -> Seq<char> { seq!['f', 'u', 'z', 'z', 'y'] }
pub open spec fn word_prefix() -> Seq<char> { seq!['p', 'r', 'e', 'f', 'i', 'x'] }

/// The anchor a lowercased name with `_` for `-` stands for; anything unknown is the center.
pub open spec fn anchor_named(w: Seq<char>) -> Anchor {
    if w == word_top_left() {
        Anchor::TopLeft
    } else if w == word_top() {
        Anchor::Top
    } else if w == word_top_right() {
        Anchor::TopRight
    } else if w == word_right() {
        Anchor::Right
    } else if w == word_bottom_right() {
        Anchor::BottomRight
    } else if w == word_bottom() {
        Anchor::Bottom
    } else if w == word_bottom_left() {
        Anchor::BottomLeft
    } else if w == word_left() {
        Anchor::Left
    } else {
        Anchor::Center
    }
}

/// Whether `a` and `b` hold the same characters.
fn same(a: &[char], b: &[char]) -> (r: bool)
    ensures
        r == (a@ == b@),
{
    crate::chars::eq_chars(a, b)
}

/// The anchor a theme names: `top-left`, `top_right`, `BOTTOM` and so on,
/// in any case; anything else is the center.
pub fn parse_anchor(s: &str) -> (r: Anchor)
    ensures
        r == anchor_named(dashes_to_underscores(spec_str_lowercase(s@))),
{
    let low = str_lowercase(s);
    let cs = chars_of(low.as_str());
    let mut w: Vec<char> = Vec::new();
    let mut i: usize = 0;
    while i < cs.len()
        invariant
            i <= cs@.len(),
            w@ == dashes_to_underscores(cs@.take(i as int)),
        decreases cs@.len() - i,
    {
        let c = cs[i];
        w.push(if c == '-' { '_' } else { c });
        assert(w@ =~= dashes_to_underscores(cs@.take(i + 1)));
        i = i + 1;
    }
    assert(cs@.take(i as int) =~= cs@);
    let w = w.as_slice();
    let tl = ['t', 'o', 'p', '_', 'l', 'e', 'f', 't'];
    let t = ['t', 'o', 'p'];
    let tr = ['t', 'o', 'p', '_', 'r', 'i', 'g', 'h', 't'];
    let r = ['r', 'i', 'g', 'h', 't'];
    let br = ['b', 'o', 't', 't', 'o', 'm', '_', 'r', 'i', 'g', 'h', 't'];
    let b = ['b', 'o', 't', 't', 'o', 'm'];
    let bl = ['b', 'o', 't', 't', 'o', 'm', '_', 'l', 'e', 'f', 't'];
    let l = ['l', 'e', 'f', 't'];
    proof {
        assert(tl@ =~= word_top_left());
        assert(t@ =~= word_top());
        assert(tr@ =~= word_top_right());
        assert(r@ =~= word_right());
        assert(br@ =~= word_bottom_right());
        assert(b@ =~= word_bottom());
        assert(bl@ =~= word_bottom_left());
        assert(l@ =~= word_left());
    }
    if same(w, tl.as_slice()) {
        Anchor::TopLeft
    } else if same(w, t.as_slice()) {
        Anchor::Top
    } else if same(w, tr.as_slice()) {
        Anchor::TopRight
    } else if same(w, r.as_slice()) {
        Anchor::Right
    } else if same(w, br.as_slice()) {
        Anchor::BottomRight
    } else if same(w, b.as_slice()) {
        Anchor::Bottom
    } else if same(w, bl.as_slice()) {
        Anchor::BottomLeft
    } else if same(w, l.as_slice()) {
        Anchor::Left
    } else {
        Anchor::Center
    }
}

/// The cursor kind a theme names, in any case: `block`, `underscore`, else a bar.
pub fn parse_cursor_kind(s: &str) -> (r: CursorKind)
    ensures
        r == (if spec_str_lowercase(s@) == word_block() {
            CursorKind::Block
        } else if spec_str_lowercase(s@) == word_underscore() {
            CursorKind::Underscore
        } else {
            CursorKind::Bar
        }),
{
    let low = str_lowercase(s);
    let cs = chars_of(low.as_str());
    let block = ['b', 'l', 'o', 'c', 'k'];
    let under = ['u', 'n', 'd', 'e', 'r', 's', 'c', 'o', 'r', 'e'];
    proof {
        assert(block@ =~= word_block());
        assert(under@ =~= word_underscore());
    }
    if same(cs.as_slice(), block.as_slice()) {
        CursorKind::Block
    } else if same(cs.as_slice(), under.as_slice()) {
        CursorKind::Underscore
    } else {
        CursorKind::Bar
    }
}

/// The matching algorithm a name stands for, in any case: `fuzzy`, `prefix`,
/// else the normal one.
pub fn parse_algorithm(s: &str) -> (r: MatchingAlgorithm)
    ensures
        r == (if spec_str_lowercase(s@) == word_fuzzy() {
            MatchingAlgorithm::Fuzzy
        } else if spec_str_lowercase(s@) == word_prefix() {
            MatchingAlgorithm::Prefix
        } else {
            MatchingAlgorithm::Normal
        }),
{
    let low = str_lowercase(s);
    let cs = chars_of(low.as_str());
    let fuzzy = ['f', 'u', 'z', 'z', 'y'];
    let prefix = ['p', 'r', 'e', 'f', 'i', 'x'];
    proof {
        assert(fuzzy@ =~= word_fuzzy());
        assert(prefix@ =~= word_prefix());
    }
    if same(cs.as_slice(), fuzzy.as_slice()) {
        MatchingAlgorithm::Fuzzy
    } else if same(cs.as_slice(), prefix.as_slice()) {
        MatchingAlgorithm::Prefix
    } else {
        MatchingAlgorithm::Normal
    }
}

/// `dir` joined with the relative path `rel`, as `Path::join` joins them on
/// Unix: a `/` goes between them unless `dir` is empty or already ends in one.
pub open spec fn join_path(dir: Seq<char>, rel: Seq<char>) -> Seq<char> {
    if dir.len() > 0 && dir.last() != '/' {
        dir + seq!['/'] + rel
    } else {
        dir + rel
    }
}

/// Joins `dir` and the relative path `rel`, as [`join_path`] says.
pub fn join_path_exec(dir: &str, rel: &str) -> (r: String)
    ensures
        r@ == join_path(dir@, rel@),
{
    let mut d = chars_of(dir);
    let n = d.len();
    if n > 0 && d[n - 1] != '/' {
        d.push('/');
    }
    let mut r = chars_of(rel);
    d.append(&mut r);
    string_of(d.as_slice())
}

pub open spec fn themes_subdir() -> Seq<char> {
    seq!['t', 'o', 'f', 'i', '/', 't', 'h', 'e', 'm', 'e', 's']
}

pub open spec fn dot_config() -> Seq<char> {
    seq!['.', 'c', 'o', 'n', 'f', 'i', 'g']
}

/// The directory of the user's themes: `tofi/themes` under
/// `$XDG_CONFIG_HOME` when it is set, else under `$HOME/.config`.
pub open spec fn spec_default_dir(config_home: Option<Seq<char>>, home: Option<Seq<char>>) -> Option<Seq<char>> {
    match config_home {
        Some(c) => Some(join_path(c, themes_subdir())),
        None => match home {
            Some(h) => Some(join_path(join_path(h, dot_config()), themes_subdir())),
            None => None,
        },
    }
}

/// The directory of the user's themes, from the values of
/// `$XDG_CONFIG_HOME` and `$HOME`.
pub fn default_dir(config_home: Option<&str>, home: Option<&str>) -> (r: Option<String>)
    ensures
        r is Some <==> (config_home is Some || home is Some),
        r matches Some(d) ==> spec_default_dir(
            match config_home {
                Some(c) => Some(c@),
                None => None,
            },
            match home {
                Some(h) => Some(h@),
                None => None,
            },
        ) == Some(d@),
{
    proof {
        reveal_strlit("tofi/themes");
        reveal_strlit(".config");
    }
    match config_home {
        Some(c) => Some(join_path_exec(c, "tofi/themes")),
        None => match home {
            Some(h) => {
                let base = join_path_exec(h, ".config");
                Some(join_path_exec(base.as_str(), "tofi/themes"))
            },
            None => None,
        },
    }
}

/// Where a theme named `name` lies: an absolute path as it is, a path with
/// a `/` under `config_dir`, a plain file name under `default_dir`.
pub open spec fn spec_resolve_path(name: Seq<char>, config_dir: Option<Seq<char>>, default_dir: Option<Seq<char>>) -> Option<Seq<char>> {
    if name.len() > 0 && name[0] == '/' {
        Some(name)
    } else if name.contains('/') {
        match config_dir {
            Some(d) => Some(join_path(d, name)),
            None => None,
        }
    } else {
        match default_dir {
            Some(d) => Some(join_path(d, name)),
            None => None,
        }
    }
}

/// Where the theme `name` lies, as [`spec_resolve_path`] says; `default_dir`
/// is the directory of the user's themes (see [`default_dir`]).
pub fn resolve_path(name: &str, config_dir: Option<&str>, default_dir: Option<&str>) -> (r: Option<String>)
    ensures
        ({
            let cd = match config_dir {
                Some(d) => Some(d@),
                None => None,
            };
            let dd = match default_dir {
                Some(d) => Some(d@),
                None => None,
            };
            &&& r is Some <==> spec_resolve_path(name@, cd, dd) is Some
            &&& r matches Some(p) ==> spec_resolve_path(name@, cd, dd) == Some(p@)
        }),
{
    let cs = chars_of(name);
    if cs.len() > 0 && cs[0] == '/' {
        return Some(string_of(cs.as_slice()));
    }
    let mut has_slash = false;
    let mut i: usize = 0;
    while i < cs.len()
        invariant
            i <= cs@.len(),
            has_slash == cs@.take(i as int).contains('/'),
        decreases cs@.len() - i,
    {
        if cs[i] == '/' {
            assert(cs@.take(i + 1)[i as int] == '/');
        } else {
            assert forall|j: int| 0 <= j < i + 1 && #[trigger] cs@.take(i + 1)[j] == '/' implies cs@.take(
                i as int,
            ).contains('/') by {
                assert(cs@.take(i as int)[j] == '/');
            }
        }
        has_slash = has_slash || cs[i] == '/';
        assert(cs@.take(i + 1).contains('/') == (cs@.take(i as int).contains('/') || cs@[i as int] == '/')) by {
            if cs@.take(i as int).contains('/') {
                let j = choose|j: int| 0 <= j < i && cs@.take(i as int)[j] == '/';
                assert(cs@.take(i + 1)[j] == '/');
            }
        }
        i = i + 1;
    }
    assert(cs@.take(i as int) =~= cs@);
    if has_slash {
        match config_dir {
            Some(d) => Some(join_path_exec(d, name)),
            None => None,
        }
    } else {
        match default_dir {
            Some(d) => Some(join_path_exec(d, name)),
            None => None,
        }
    }
}

} // verus!
