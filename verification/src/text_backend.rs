//! What the text backend computes without a font system: the extents it
//! reports, byte offsets of characters, the span of a highlighted match, and
//! the OpenType features that a theme asks for.

use vstd::prelude::*;
use vstd::string::StringSliceAdditionalSpecFns;
use vstd::utf8::*;

use crate::chars::{char_sep, find_char, find_char_exec, sub_chars, trim, trim_chars};
use crate::numbers::{parse_unsigned, parse_unsigned_chars};
use crate::text::{chars_of, fields_from, str_utf8_len, string_of, utf8_len, views};
use crate::chars::split_nonempty;
use crate::unicode::{byte_offset_clamped, byte_offset_of, spec_strcasestr, strcasestr_chars};

verus! {

/// The measured extents of a laid-out text, in pixels.
#[derive(Debug, Clone, Copy, PartialEq, Eq, Structural)]
pub struct TextExtents {
    pub ink_x: i32,
    pub ink_width: i32,
    pub logical_x: i32,
    pub logical_width: i32,
    pub logical_height: i32,
}

impl Default for TextExtents {
    fn default() -> (e: Self)
        ensures
            e == (TextExtents { ink_x: 0, ink_width: 0, logical_x: 0, logical_width: 0, logical_height: 0 }),
    {
        TextExtents { ink_x: 0, ink_width: 0, logical_x: 0, logical_width: 0, logical_height: 0 }
    }
}

impl TextExtents {
    /// Replaces the logical width, keeping the other extents.
    pub fn set_logical_width(&mut self, w: i32)
        ensures
            *final(self) == (TextExtents { logical_width: w, ..*old(self) }),
    {
        self.logical_width = w;
    }
}

/// The byte offset in `text` of the character with index `char_index`, or
/// the byte length of `text` when there is no such character.
pub fn char_index_to_byte(text: &str, char_index: usize) -> (r: usize)
    ensures
        r == byte_offset_clamped(text@, char_index as int),
{
    let cs = chars_of(text);
    let total = str_utf8_len(text);
    byte_offset_of(&cs, char_index, total)
}

/// The span that [`find_match_position`] reports for `needle` in `haystack`:
/// the byte offset in `haystack` where it matches `needle` ignoring case (see
/// [`spec_strcasestr`]), and that offset plus the byte length of `needle`;
/// nothing for an empty `needle`.
pub open spec fn spec_match_position(haystack: Seq<char>, needle: Seq<char>) -> Option<(int, int)> {
    if needle.len() == 0 {
        None
    } else {
        match spec_strcasestr(haystack, needle) {
            Some(o) => Some((o, o + utf8_len(needle))),
            None => None,
        }
    }
}

/// Case-insensitive substring search: the byte span in `haystack` of the
/// first match of `needle`, as [`spec_match_position`] describes.
pub fn find_match_position(haystack: &str, needle: &str) -> (r: Option<(usize, usize)>)
    requires
        utf8_len(haystack@) + utf8_len(needle@) <= usize::MAX,
    ensures
        r is Some <==> spec_match_position(haystack@, needle@) is Some,
        r matches Some(p) ==> spec_match_position(haystack@, needle@) == Some((p.0 as int, p.1 as int)),
{
    let nb = str_utf8_len(needle);
    let n = chars_of(needle);
    if n.len() == 0 {
        return None;
    }
    let h = chars_of(haystack);
    let hb = str_utf8_len(haystack);
    match strcasestr_chars(&h, &n, hb) {
        Some(pos) => Some((pos, pos + nb)),
        None => None,
    }
}

/// One feature of a font-feature list: its four-byte tag, and the value it
/// is set to; `None` switches the feature on with its default value.
#[derive(Debug, Clone, Copy, PartialEq, Eq)]
pub struct FontFeature {
    pub tag: [u8; 4],
    pub value: Option<u32>,
}

/// The tag made from `s`: the first four bytes of its UTF-8 encoding, padded
/// with spaces.
pub open spec fn feature_tag(s: Seq<char>) -> Seq<u8> {
    let b = encode_utf8(s);
    Seq::new(4, |i: int| if i < b.len() { b[i] } else { 32u8 })
}

/// What the non-empty, trimmed item `t` asks for: `tag=value` sets a value
/// (1 when the value is no number), a bare tag switches the feature on.
pub open spec fn feature_of(t: Seq<char>) -> (Seq<u8>, Option<u32>) {
    match find_char(t, '=') {
        Some(k) => (
            feature_tag(trim(t.take(k))),
            Some(
                match parse_unsigned(trim(t.skip(k + 1)), u32::MAX as int) {
                    Some(v) => v as u32,
                    None => 1u32,
                },
            ),
        ),
        None => (feature_tag(t), None),
    }
}

/// The features that the items `parts` ask for; items that are blank after
/// trimming are skipped.
pub open spec fn features_of(parts: Seq<Seq<char>>) -> Seq<(Seq<u8>, Option<u32>)>
    decreases parts.len(),
{
    if parts.len() == 0 {
        Seq::empty()
    } else {
        let t = trim(parts.last());
        features_of(parts.drop_last()) + (if t.len() == 0 {
            Seq::empty()
        } else {
            seq![feature_of(t)]
        })
    }
}

/// The features of the comma-separated list `raw`.
pub open spec fn spec_font_features(raw: Seq<char>) -> Seq<(Seq<u8>, Option<u32>)> {
    features_of(fields_from(raw, Seq::empty(), char_sep(',')))
}

/// What each feature of `fs` stands for.
pub open spec fn feature_views(fs: Seq<FontFeature>) -> Seq<(Seq<u8>, Option<u32>)> {
    fs.map_values(|f: FontFeature| (f.tag@, f.value))
}

fn feature_tag_exec(s: &[char]) -> (t: [u8; 4])
    ensures
        t@ == feature_tag(s@),
{
    let st = string_of(s);
    let b = st.as_str().as_bytes();
    let b0 = if 0 < b.len() { b[0] } else { 32u8 };
    let b1 = if 1 < b.len() { b[1] } else { 32u8 };
    let b2 = if 2 < b.len() { b[2] } else { 32u8 };
    let b3 = if 3 < b.len() { b[3] } else { 32u8 };
    let t = [b0, b1, b2, b3];
    assert(t@ =~= feature_tag(s@));
    t
}

fn feature_of_exec(t: &[char]) -> (f: FontFeature)
    ensures
        (f.tag@, f.value) == feature_of(t@),
{
    let n = t.len();
    match find_char_exec(t, '=') {
        Some(k) => {
            assert(k < n);
            let name = sub_chars(t, 0, k);
            let name = trim_chars(name.as_slice());
            let rest = sub_chars(t, k + 1, n);
            let rest = trim_chars(rest.as_slice());
            proof {
                assert(t@.subrange(0, k as int) =~= t@.take(k as int));
                assert(t@.subrange(k + 1, t@.len() as int) =~= t@.skip(k + 1));
            }
            let value = match parse_unsigned_chars(rest.as_slice(), 0xffff_ffff) {
                Some(v) => v as u32,
                None => 1u32,
            };
            FontFeature { tag: feature_tag_exec(name.as_slice()), value: Some(value) }
        },
        None => FontFeature { tag: feature_tag_exec(t), value: None },
    }
}

/// The OpenType features that the comma-separated list `raw` asks for, as
/// [`spec_font_features`] describes: items such as `liga=0` or `smcp`.
pub fn parse_font_features(raw: &str) -> (r: Vec<FontFeature>)
    ensures
        feature_views(r@) == spec_font_features(raw@),
{
    let cs = chars_of(raw);
    let parts = split_nonempty(cs.as_slice(), ',');
    let ghost ps = views(parts@);
    let mut r: Vec<FontFeature> = Vec::new();
    let mut i: usize = 0;
    proof {
        assert(ps.take(0) =~= Seq::<Seq<char>>::empty());
        assert(feature_views(r@) =~= Seq::<(Seq<u8>, Option<u32>)>::empty());
    }
    while i < parts.len()
        invariant
            i <= parts@.len(),
            ps == views(parts@),
            ps.len() == parts@.len(),
            feature_views(r@) == features_of(ps.take(i as int)),
        decreases parts@.len() - i,
    {
        let t = trim_chars(parts[i].as_slice());
        let ghost before = r@;
        proof {
            assert(ps[i as int] == parts@[i as int]@);
            assert(ps.take(i + 1).drop_last() =~= ps.take(i as int));
            assert(ps.take(i + 1).last() == ps[i as int]);
        }
        if t.len() > 0 {
            let f = feature_of_exec(t.as_slice());
            r.push(f);
            assert(feature_views(r@) =~= feature_views(before) + seq![feature_of(t@)]);
        } else {
            assert(feature_views(r@) =~= feature_views(before) + Seq::<(Seq<u8>, Option<u32>)>::empty());
        }
        i = i + 1;
    }
    assert(ps.take(parts@.len() as int) =~= ps);
    r
}

} // verus!
