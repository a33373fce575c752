//! Unicode helpers: UTF-8 validation, encoding and decoding, character
//! classification, case mapping, case-insensitive search and NFC normalization.
//!
//! Character classification and case mapping come from `char`'s own methods and
//! normalization from the `unicode-normalization` crate; each is reached through
//! one trusted wrapper whose result is named by a spec function below.

use unicode_normalization::UnicodeNormalization;
use vstd::prelude::*;
use vstd::string::StringSliceAdditionalSpecFns;
use vstd::utf8::*;

use crate::text::{
    char_utf8_len, char_width, chars_of, lemma_encode_utf8_concat, lemma_encode_utf8_injective,
    lemma_encode_utf8_push, lemma_utf8_len_take, str_utf8_len, utf8_len,
};

verus! {

broadcast use vstd::utf8::char_is_scalar;

/// Maximum number of characters in the input buffer.
///
/// The UTF-8 representation of the same input can use up to four times as many bytes.
pub const MAX_INPUT_LENGTH: usize = 256;

// ── Names for what the standard library and `unicode-normalization` compute ──


/// Whether `c` has the Uppercase property (`char::is_uppercase`).
pub uninterp spec fn spec_is_uppercase(c: char) -> bool;

/// Whether `c` has the Lowercase property (`char::is_lowercase`).
pub uninterp spec fn spec_is_lowercase(c: char) -> bool;

/// Whether `c` is alphabetic or numeric (`char::is_alphanumeric`).
pub uninterp spec fn spec_is_alphanumeric(c: char) -> bool;

/// The full lowercase mapping of `c` (`char::to_lowercase`).
pub uninterp spec fn spec_to_lowercase(c: char) -> Seq<char>;

/// The full uppercase mapping of `c` (`char::to_uppercase`).
pub uninterp spec fn spec_to_uppercase(c: char) -> Seq<char>;

/// The NFC normal form of `s` (`UnicodeNormalization::nfc`).
pub uninterp spec fn spec_nfc(s: Seq<char>) -> Seq<char>;

// ── Control characters and white space ──────────────────────────────────────

/// Whether `c` has the general category Cc, what `char::is_control` tests:
/// U+0000 to U+001F and U+007F to U+009F.
pub open spec fn spec_is_control(c: char) -> bool {
    let v = c as u32;
    v <= 0x1f || (0x7f <= v && v <= 0x9f)
}

/// Whether `c` has the Unicode White_Space property, what
/// `char::is_whitespace` tests: U+0009 to U+000D, U+0020, U+0085, U+00A0,
/// U+1680, U+2000 to U+200A, U+2028, U+2029, U+202F, U+205F and U+3000.
pub open spec fn spec_is_whitespace(c: char) -> bool {
    let v = c as u32;
    ||| (0x09 <= v && v <= 0x0d)
    ||| v == 0x20
    ||| v == 0x85
    ||| v == 0xa0
    ||| v == 0x1680
    ||| (0x2000 <= v && v <= 0x200a)
    ||| v == 0x2028
    ||| v == 0x2029
    ||| v == 0x202f
    ||| v == 0x205f
    ||| v == 0x3000
}

/// Whether `c` is a control character, as [`spec_is_control`] says.
fn char_is_control(c: char) -> (b: bool)
    ensures
        b == spec_is_control(c),
{
    let v = c as u32;
    v <= 0x1f || (0x7f <= v && v <= 0x9f)
}

/// Whether `c` is white space, as [`spec_is_whitespace`] says.
pub(crate) fn char_is_whitespace(c: char) -> (b: bool)
    ensures
        b == spec_is_whitespace(c),
{
    let v = c as u32;
    (0x09 <= v && v <= 0x0d) || v == 0x20 || v == 0x85 || v == 0xa0 || v == 0x1680 || (0x2000 <= v && v
        <= 0x200a) || v == 0x2028 || v == 0x2029 || v == 0x202f || v == 0x205f || v == 0x3000
}

/// `char::is_uppercase`.
#[verifier::external_body]
fn char_is_uppercase(c: char) -> (b: bool)
    ensures
        b == spec_is_uppercase(c),
{
    c.is_uppercase()
}

/// `char::is_lowercase`.
#[verifier::external_body]
fn char_is_lowercase(c: char) -> (b: bool)
    ensures
        b == spec_is_lowercase(c),
{
    c.is_lowercase()
}

/// `char::is_alphanumeric`.
#[verifier::external_body]
fn char_is_alphanumeric(c: char) -> (b: bool)
    ensures
        b == spec_is_alphanumeric(c),
{
    c.is_alphanumeric()
}

/// `char::to_lowercase`, collected. Its documentation promises one or more
/// characters, the mapping of the Unicode Character Database, which for an
/// ASCII character is one character: `A`..`Z` become `a`..`z`, the others
/// stay as they are.
#[verifier::external_body]
fn char_to_lowercase(c: char) -> (v: Vec<char>)
    ensures
        v@ == spec_to_lowercase(c),
        v@.len() >= 1,
        (c as u32) < 0x80 ==> v@ == seq![crate::chars::ascii_lower(c)],
{
    c.to_lowercase().collect()
}

/// `char::to_uppercase`, collected. Its documentation promises one or more
/// characters, the mapping of the Unicode Character Database, which for an
/// ASCII character is one character: `a`..`z` become `A`..`Z`, the others
/// stay as they are.
#[verifier::external_body]
fn char_to_uppercase(c: char) -> (v: Vec<char>)
    ensures
        v@ == spec_to_uppercase(c),
        v@.len() >= 1,
        (c as u32) < 0x80 ==> v@ == seq![crate::chars::ascii_upper(c)],
{
    c.to_uppercase().collect()
}

/// `std::str::Utf8Error`, carried through unopened.
#[verifier::external_type_specification]
#[verifier::external_body]
pub struct ExUtf8Error(std::str::Utf8Error);

/// `std::str::from_utf8`: succeeds exactly on well-formed UTF-8, and then the
/// string's bytes are the input bytes.
#[verifier::external_body]
pub(crate) fn str_from_utf8(bytes: &[u8]) -> (r: Result<&str, std::str::Utf8Error>)
    ensures
        r is Ok <==> valid_utf8(bytes@),
        r matches Ok(s) ==> s.spec_bytes() == bytes@,
{
    std::str::from_utf8(bytes)
}

// ── Specifications of the helpers ────────────────────────────────────────────

/// The first character of the lowercase mapping of `c`: what a single-character
/// case-insensitive comparison compares.
pub open spec fn lower1(c: char) -> char {
    spec_to_lowercase(c)[0]
}

/// The first character of the uppercase mapping of `c`.
pub open spec fn upper1(c: char) -> char {
    spec_to_uppercase(c)[0]
}

/// `s` with every character replaced by its full lowercase mapping.
pub open spec fn casefold(s: Seq<char>) -> Seq<char>
    decreases s.len(),
{
    if s.len() == 0 {
        Seq::empty()
    } else {
        casefold(s.drop_last()) + spec_to_lowercase(s.last())
    }
}

/// `n` occurs in `h` starting at character index `i`.
pub open spec fn occurs_at(h: Seq<char>, n: Seq<char>, i: int) -> bool {
    0 <= i && i + n.len() <= h.len() && h.subrange(i, i + n.len()) == n
}

/// Byte offset into `s` of the character at index `k`, or the byte length of
/// `s` when `k` is past its end.
pub open spec fn byte_offset_clamped(s: Seq<char>, k: int) -> int {
    if k < s.len() {
        utf8_len(s.take(k)) as int
    } else {
        utf8_len(s) as int
    }
}

/// The first index at or after `i` where `n` occurs in `h`.
pub open spec fn first_occurrence_from(h: Seq<char>, n: Seq<char>, i: int) -> Option<int>
    decreases h.len() + 1 - i,
{
    if i < 0 || i + n.len() > h.len() {
        None
    } else if occurs_at(h, n, i) {
        Some(i)
    } else {
        first_occurrence_from(h, n, i + 1)
    }
}

/// The first index where `n` occurs in `h`.
pub open spec fn first_occurrence(h: Seq<char>, n: Seq<char>) -> Option<int> {
    first_occurrence_from(h, n, 0)
}

/// The index, at or after `j`, of the character of `h` whose case-folded form
/// holds position `k` of the case-folded `h`; the length of `h` when there is
/// none.
pub open spec fn fold_owner_from(h: Seq<char>, k: int, j: int) -> int
    decreases h.len() - j,
{
    if j < 0 || j >= h.len() {
        h.len() as int
    } else if k < casefold(h.take(j + 1)).len() {
        j
    } else {
        fold_owner_from(h, k, j + 1)
    }
}

/// Case-insensitive search: `h` and `n` are case-folded character by
/// character, and the first place where the folded `n` occurs in the folded
/// `h` is reported as the byte offset in `h` of the character whose folded
/// form holds that place; 0 for an empty `n`.
pub open spec fn spec_strcasestr(h: Seq<char>, n: Seq<char>) -> Option<int> {
    if n.len() == 0 {
        Some(0)
    } else {
        match first_occurrence(casefold(h), casefold(n)) {
            Some(k) => Some(utf8_len(h.take(fold_owner_from(h, k, 0))) as int),
            None => None,
        }
    }
}

/// What `first_occurrence_from` finds is the least match position at or after `i`.
pub proof fn lemma_first_occurrence_from(h: Seq<char>, n: Seq<char>, i: int)
    requires
        0 <= i,
    ensures
        first_occurrence_from(h, n, i) matches Some(k) ==> i <= k && occurs_at(h, n, k) && (
        forall|j: int| i <= j < k ==> !occurs_at(h, n, j)),
        first_occurrence_from(h, n, i) is None ==> forall|j: int| i <= j ==> !occurs_at(h, n, j),
    decreases h.len() + 1 - i,
{
    if i + n.len() > h.len() {
    } else if occurs_at(h, n, i) {
    } else {
        lemma_first_occurrence_from(h, n, i + 1);
    }
}

/// The owner of a position lies within `h`, or is its length.
pub proof fn lemma_fold_owner_bound(h: Seq<char>, k: int, j: int)
    requires
        0 <= j,
    ensures
        0 <= fold_owner_from(h, k, j) <= h.len(),
    decreases h.len() - j,
{
    if j < h.len() && !(k < casefold(h.take(j + 1)).len()) {
        lemma_fold_owner_bound(h, k, j + 1);
    }
}

/// Case-folding a concatenation folds each part in turn.
pub proof fn lemma_casefold_concat(a: Seq<char>, b: Seq<char>)
    ensures
        casefold(a + b) == casefold(a) + casefold(b),
    decreases b.len(),
{
    if b.len() == 0 {
        assert(a + b =~= a);
        assert(casefold(a) + casefold(b) =~= casefold(a));
    } else {
        lemma_casefold_concat(a, b.drop_last());
        assert((a + b).drop_last() =~= a + b.drop_last());
        assert((a + b).last() == b.last());
        assert(casefold(a) + casefold(b) =~= casefold(a) + casefold(b.drop_last()) + spec_to_lowercase(b.last()));
    }
}

// ── UTF-8 validation and conversion ──────────────────────────────────────────

/// Whether `bytes` is well-formed UTF-8.
pub fn utf8_validate(bytes: &[u8]) -> (b: bool)
    ensures
        b == valid_utf8(bytes@),
{
    str_from_utf8(bytes).is_ok()
}

/// The first character of `s`, or `None` when `s` is empty.
pub fn utf8_to_utf32(s: &str) -> (r: Option<char>)
    ensures
        r == (if s@.len() > 0 {
            Some(s@[0])
        } else {
            None
        }),
{
    let cs = chars_of(s);
    if cs.len() > 0 {
        Some(cs[0])
    } else {
        None
    }
}

/// The first character encoded by `bytes`, or `None` when `bytes` is empty or
/// not well-formed UTF-8.
pub fn utf8_to_utf32_validate(bytes: &[u8]) -> (r: Option<char>)
    ensures
        r == (if valid_utf8(bytes@) && decode_utf8(bytes@).len() > 0 {
            Some(decode_utf8(bytes@)[0])
        } else {
            None
        }),
{
    match str_from_utf8(bytes) {
        Ok(s) => {
            proof {
                encode_utf8_decode_utf8(s@);
            }
            utf8_to_utf32(s)
        },
        Err(_) => None,
    }
}

/// The UTF-8 encoding of `c` in the first `n` bytes of a zero-padded buffer, with `n`.
pub fn utf32_to_utf8(c: char) -> (r: ([u8; 4], usize))
    ensures
        r.1 == char_width(c),
        r.0@.take(r.1 as int) == encode_scalar(c as u32),
        forall|i: int| r.1 <= i < 4 ==> r.0@[i] == 0,
{
    let v = c as u32;
    if v < 0x80 {
        let buf = [(v & 0x7F) as u8, 0, 0, 0];
        assert(buf@.take(1) =~= encode_scalar(v));
        (buf, 1)
    } else if v < 0x800 {
        let buf = [0xC0 | ((v >> 6) & 0x1F) as u8, 0x80 | (v & 0x3F) as u8, 0, 0];
        assert(buf@.take(2) =~= encode_scalar(v));
        (buf, 2)
    } else if v < 0x10000 {
        let buf = [
            0xE0 | ((v >> 12) & 0x0F) as u8,
            0x80 | ((v >> 6) & 0x3F) as u8,
            0x80 | (v & 0x3F) as u8,
            0,
        ];
        assert(buf@.take(3) =~= encode_scalar(v));
        (buf, 3)
    } else {
        let buf = [
            0xF0 | ((v >> 18) & 0x7) as u8,
            0x80 | ((v >> 12) & 0x3F) as u8,
            0x80 | ((v >> 6) & 0x3F) as u8,
            0x80 | (v & 0x3F) as u8,
        ];
        assert(buf@.take(4) =~= encode_scalar(v));
        (buf, 4)
    }
}

/// All characters of `s`, in order.
pub fn utf8_string_to_utf32_string(s: &str) -> (v: Vec<char>)
    ensures
        v@ == s@,
{
    chars_of(s)
}

/// Number of characters in `s`.
pub fn utf8_strlen(s: &str) -> (n: usize)
    ensures
        n == s@.len(),
{
    chars_of(s).len()
}

/// The first character of `s` and the rest of `s` after it, or `None` when `s` is empty.
pub fn utf8_next_char(s: &str) -> (r: Option<(char, &str)>)
    ensures
        s@.len() == 0 ==> r is None,
        s@.len() > 0 ==> (r matches Some((c, rest)) && c == s@[0] && rest@ == s@.drop_first()),
{
    let cs = chars_of(s);
    if cs.len() == 0 {
        return None;
    }
    let c = cs[0];
    let w = char_utf8_len(c);
    proof {
        let d = s@.drop_first();
        let bytes = s.spec_bytes();
        encode_utf8_first_scalar(s@);
        encode_utf8_valid_utf8(s@);
        encode_utf8_valid_utf8(d);
        assert(pop_first_scalar(bytes) =~= encode_utf8(d));
        assert(is_char_boundary(pop_first_scalar(bytes), 0));
        assert(is_char_boundary(bytes, w as int));
    }
    let (_, rest) = s.split_at(w);
    proof {
        let d = s@.drop_first();
        assert(rest.spec_bytes() =~= encode_utf8(d));
        lemma_encode_utf8_injective(rest@, d);
    }
    Some((c, rest))
}

// ── Searching ────────────────────────────────────────────────────────────────

/// Walks the first `k` characters of `cs` (all of them when `k` is larger)
/// and returns the byte offset reached.
pub(crate) fn byte_offset_of(cs: &Vec<char>, k: usize, total: usize) -> (off: usize)
    requires
        total == utf8_len(cs@),
    ensures
        off == byte_offset_clamped(cs@, k as int),
{
    let mut off: usize = 0;
    let mut i: usize = 0;
    while i < k && i < cs.len()
        invariant
            i <= cs@.len(),
            i <= k,
            total == utf8_len(cs@),
            off == utf8_len(cs@.take(i as int)),
        decreases cs@.len() - i,
    {
        proof {
            lemma_encode_utf8_push(cs@.take(i as int), cs@[i as int]);
            assert(cs@.take(i as int).push(cs@[i as int]) =~= cs@.take(i + 1));
            lemma_utf8_len_take(cs@, i + 1);
        }
        off = off + char_utf8_len(cs[i]);
        i = i + 1;
    }
    proof {
        if i == cs@.len() {
            assert(cs@.take(i as int) =~= cs@);
        }
    }
    off
}

/// Byte offset of the first occurrence of `needle` in `s`.
pub fn utf8_strchr(s: &str, needle: char) -> (r: Option<usize>)
    ensures
        match r {
            Some(off) => exists|i: int|
                #![trigger s@[i]]
                0 <= i < s@.len() && s@[i] == needle && (forall|j: int|
                    0 <= j < i ==> s@[j] != needle) && off == utf8_len(s@.take(i)),
            None => forall|i: int| 0 <= i < s@.len() ==> s@[i] != needle,
        },
{
    let cs = chars_of(s);
    let total = str_utf8_len(s);
    let mut i: usize = 0;
    while i < cs.len()
        invariant
            cs@ == s@,
            total == utf8_len(s@),
            i <= cs@.len(),
            forall|j: int| 0 <= j < i ==> s@[j] != needle,
        decreases cs@.len() - i,
    {
        if cs[i] == needle {
            let off = byte_offset_of(&cs, i, total);
            return Some(off);
        }
        i = i + 1;
    }
    None
}

/// Byte offset of the first character of `s` that equals `needle` once both are lowercased.
pub fn utf8_strcasechr(s: &str, needle: char) -> (r: Option<usize>)
    ensures
        match r {
            Some(off) => exists|i: int|
                #![trigger s@[i]]
                0 <= i < s@.len() && lower1(s@[i]) == lower1(needle) && (forall|j: int|
                    0 <= j < i ==> lower1(s@[j]) != lower1(needle)) && off == utf8_len(
                    s@.take(i),
                ),
            None => forall|i: int| 0 <= i < s@.len() ==> lower1(s@[i]) != lower1(needle),
        },
{
    let needle_lower = utf32_tolower(needle);
    let cs = chars_of(s);
    let total = str_utf8_len(s);
    let mut i: usize = 0;
    while i < cs.len()
        invariant
            cs@ == s@,
            total == utf8_len(s@),
            needle_lower == lower1(needle),
            i <= cs@.len(),
            forall|j: int| 0 <= j < i ==> lower1(s@[j]) != lower1(needle),
        decreases cs@.len() - i,
    {
        if utf32_tolower(cs[i]) == needle_lower {
            let off = byte_offset_of(&cs, i, total);
            return Some(off);
        }
        i = i + 1;
    }
    None
}

/// `cs` with every character replaced by its full lowercase mapping.
pub(crate) fn casefold_chars(cs: &Vec<char>) -> (f: Vec<char>)
    ensures
        f@ == casefold(cs@),
{
    let mut f: Vec<char> = Vec::new();
    let mut i: usize = 0;
    while i < cs.len()
        invariant
            i <= cs@.len(),
            f@ == casefold(cs@.take(i as int)),
        decreases cs@.len() - i,
    {
        let mut low = char_to_lowercase(cs[i]);
        proof {
            assert(cs@.take(i + 1).drop_last() =~= cs@.take(i as int));
        }
        f.append(&mut low);
        i = i + 1;
    }
    assert(cs@.take(cs@.len() as int) =~= cs@);
    f
}

/// Whether `n` occurs in `h` at index `i`.
fn occurs_at_exec(h: &Vec<char>, n: &Vec<char>, i: usize) -> (b: bool)
    requires
        i + n@.len() <= h@.len(),
    ensures
        b == occurs_at(h@, n@, i as int),
{
    let hl = h.len();
    let mut j: usize = 0;
    while j < n.len()
        invariant
            hl == h@.len(),
            i + n@.len() <= h@.len(),
            j <= n@.len(),
            forall|k: int| 0 <= k < j ==> h@[i + k] == n@[k],
        decreases n@.len() - j,
    {
        assert(i + j < h@.len());
        if h[i + j] != n[j] {
            assert(h@.subrange(i as int, i + n@.len())[j as int] != n@[j as int]);
            return false;
        }
        j = j + 1;
    }
    assert(h@.subrange(i as int, i + n@.len()) =~= n@);
    true
}

/// The first index where `n` occurs in `h`.
fn find_chars(h: &Vec<char>, n: &Vec<char>) -> (r: Option<usize>)
    ensures
        r == (match first_occurrence(h@, n@) {
            Some(k) => Some(k as usize),
            None => None::<usize>,
        }),
        r matches Some(k) ==> k + n@.len() <= h@.len() && first_occurrence(h@, n@) == Some(k as int),
{
    if n.len() > h.len() {
        return None;
    }
    let last = h.len() - n.len();
    let mut i: usize = 0;
    while i <= last
        invariant
            last == h@.len() - n@.len(),
            i <= last + 1,
            first_occurrence(h@, n@) == first_occurrence_from(h@, n@, i as int),
        decreases last + 1 - i,
    {
        if occurs_at_exec(h, n, i) {
            return Some(i);
        }
        if i == last {
            return None;
        }
        i = i + 1;
    }
    None
}

/// Case-insensitive search over character sequences; see [`spec_strcasestr`].
pub(crate) fn strcasestr_chars(h: &Vec<char>, n: &Vec<char>, h_bytes: usize) -> (r: Option<usize>)
    requires
        h_bytes == utf8_len(h@),
    ensures
        r is Some <==> spec_strcasestr(h@, n@) is Some,
        r matches Some(o) ==> spec_strcasestr(h@, n@) == Some(o as int) && o <= h_bytes,
{
    if n.len() == 0 {
        return Some(0);
    }
    let hf = casefold_chars(h);
    let nf = casefold_chars(n);
    let k = match find_chars(&hf, &nf) {
        Some(k) => k,
        None => return None,
    };
    let hfl = hf.len();
    let mut j: usize = 0;
    let mut fl: usize = 0;
    let mut off: usize = 0;
    proof {
        assert(h@.take(0) =~= Seq::<char>::empty());
        assert(casefold(Seq::<char>::empty()) =~= Seq::<char>::empty());
        assert(utf8_len(Seq::<char>::empty()) == 0) by {
            assert(encode_utf8(Seq::<char>::empty()) =~= Seq::<u8>::empty());
        }
    }
    while j < h.len()
        invariant
            j <= h@.len(),
            h_bytes == utf8_len(h@),
            hf@ == casefold(h@),
            hfl == hf@.len(),
            nf@ == casefold(n@),
            n@.len() > 0,
            first_occurrence(hf@, nf@) == Some(k as int),
            fl == casefold(h@.take(j as int)).len(),
            off == utf8_len(h@.take(j as int)),
            fold_owner_from(h@, k as int, 0) == fold_owner_from(h@, k as int, j as int),
        decreases h@.len() - j,
    {
        let c = h[j];
        let low = char_to_lowercase(c);
        proof {
            assert(h@.take(j + 1).drop_last() =~= h@.take(j as int));
            assert(h@.take(j + 1).last() == c);
            lemma_casefold_concat(h@.take(j + 1), h@.skip(j + 1));
            assert(h@.take(j + 1) + h@.skip(j + 1) =~= h@);
            crate::text::lemma_encode_utf8_push(h@.take(j as int), c);
            assert(h@.take(j as int).push(c) =~= h@.take(j + 1));
            crate::text::lemma_utf8_len_take(h@, j + 1);
            assert(casefold(h@.take(j + 1)) == casefold(h@.take(j as int)) + spec_to_lowercase(c));
            assert(casefold(h@.take(j + 1)).len() <= hf@.len());
            assert(fl + low@.len() == casefold(h@.take(j + 1)).len());
        }
        let next = fl + low.len();
        if k < next {
            proof {
                crate::text::lemma_utf8_len_take(h@, j as int);
            }
            return Some(off);
        }
        fl = next;
        off = off + crate::text::char_utf8_len(c);
        j = j + 1;
    }
    proof {
        assert(h@.take(j as int) =~= h@);
    }
    Some(off)
}

/// Case-insensitive substring search; the byte offset of `needle` within
/// `haystack`, as [`spec_strcasestr`] describes.
pub fn utf8_strcasestr(haystack: &str, needle: &str) -> (r: Option<usize>)
    ensures
        r is Some <==> spec_strcasestr(haystack@, needle@) is Some,
        r matches Some(o) ==> spec_strcasestr(haystack@, needle@) == Some(o as int),
{
    let h = chars_of(haystack);
    let n = chars_of(needle);
    let hb = str_utf8_len(haystack);
    strcasestr_chars(&h, &n, hb)
}

// ── Classification and case mapping ──────────────────────────────────────────

/// Whether `c` is printable, i.e. not a control character.
pub fn utf32_isprint(c: char) -> (b: bool)
    ensures
        b == !spec_is_control(c),
{
    !char_is_control(c)
}

/// Whether `c` is a Unicode whitespace character.
pub fn utf32_isspace(c: char) -> (b: bool)
    ensures
        b == spec_is_whitespace(c),
{
    char_is_whitespace(c)
}

/// Whether `c` is an uppercase letter.
pub fn utf32_isupper(c: char) -> (b: bool)
    ensures
        b == spec_is_uppercase(c),
{
    char_is_uppercase(c)
}

/// Whether `c` is a lowercase letter.
pub fn utf32_islower(c: char) -> (b: bool)
    ensures
        b == spec_is_lowercase(c),
{
    char_is_lowercase(c)
}

/// Whether `c` is alphanumeric.
pub fn utf32_isalnum(c: char) -> (b: bool)
    ensures
        b == spec_is_alphanumeric(c),
{
    char_is_alphanumeric(c)
}

/// The first character of the uppercase mapping of `c`.
pub fn utf32_toupper(c: char) -> (u: char)
    ensures
        u == upper1(c),
{
    let v = char_to_uppercase(c);
    v[0]
}

/// The first character of the lowercase mapping of `c`.
pub fn utf32_tolower(c: char) -> (l: char)
    ensures
        l == lower1(c),
{
    let v = char_to_lowercase(c);
    v[0]
}

// ── Normalization ────────────────────────────────────────────────────────────

/// The NFC normal form of `s` (`UnicodeNormalization::nfc`).
#[verifier::external_body]
pub fn utf8_normalize(s: &str) -> (r: String)
    ensures
        r@ == spec_nfc(s@),
{
    s.nfc().collect()
}

/// The NFC-composed form of `s`: the same as [`utf8_normalize`].
pub fn utf8_compose(s: &str) -> (r: String)
    ensures
        r@ == spec_nfc(s@),
{
    utf8_normalize(s)
}

/// Encoding a character as UTF-8 and decoding the bytes gives the character
/// back: what `utf32_to_utf8` writes, `utf8_to_utf32_validate` reads.
pub proof fn law_utf8_roundtrip(c: char)
    ensures
        valid_utf8(encode_scalar(c as u32)),
        decode_utf8(encode_scalar(c as u32)).len() == 1,
        decode_utf8(encode_scalar(c as u32))[0] == c,
{
    let one = seq![c];
    assert(one.drop_first() =~= Seq::<char>::empty());
    assert(encode_utf8(one) =~= encode_scalar(c as u32) + encode_utf8(Seq::<char>::empty()));
    assert(encode_utf8(Seq::<char>::empty()) =~= Seq::<u8>::empty());
    assert(encode_utf8(one) =~= encode_scalar(c as u32));
    encode_utf8_valid_utf8(one);
    encode_utf8_decode_utf8(one);
}

} // verus!
