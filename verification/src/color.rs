//! Hex color strings.
//!
//! Accepted inputs (leading `#` optional), by length in bytes:
//!
//! | Length | Form       | Alpha       |
//! |--------|------------|-------------|
//! | 3      | `RGB`      | `0xFF`      |
//! | 4      | `RGBA`     | from input  |
//! | 6      | `RRGGBB`   | `0xFF`      |
//! | 8      | `RRGGBBAA` | from input  |
//!
//! The channels come out as bytes; scaling them to `0.0..=1.0` is left to
//! the caller.

use vstd::prelude::*;

use crate::error::Error;
use crate::numbers::{decimal, push_decimal};
use crate::text::{chars_of, lemma_len_le_utf8_len, push_char, str_utf8_len, string_of, utf8_len};

verus! {

/// Whether `c` is an ASCII hexadecimal digit.
pub open spec fn is_hex_digit(c: char) -> bool {
    ('0' <= c && c <= '9') || ('a' <= c && c <= 'f') || ('A' <= c && c <= 'F')
}

/// The value of an ASCII hexadecimal digit.
pub open spec fn hex_value(c: char) -> int {
    if '0' <= c && c <= '9' {
        (c as u32) - ('0' as u32)
    } else if 'a' <= c && c <= 'f' {
        (c as u32) - ('a' as u32) + 10
    } else {
        (c as u32) - ('A' as u32) + 10
    }
}

/// Whether every character of `s` is a hexadecimal digit.
pub open spec fn all_hex(s: Seq<char>) -> bool {
    forall|i: int| 0 <= i < s.len() ==> is_hex_digit(#[trigger] s[i])
}

/// The value of a sequence of hexadecimal digits.
pub open spec fn hex_digits_value(s: Seq<char>) -> int
    decreases s.len(),
{
    if s.len() == 0 {
        0
    } else {
        hex_digits_value(s.drop_last()) * 16 + hex_value(s.last())
    }
}

/// The value of the hexadecimal digits `s`, when there is at least one, all
/// are hexadecimal digits, and the value is at most `max`.
pub open spec fn parse_hex(s: Seq<char>, max: int) -> Option<int> {
    if s.len() > 0 && all_hex(s) && hex_digits_value(s) <= max {
        Some(hex_digits_value(s))
    } else {
        None
    }
}

/// The value of shorthand digits, each digit doubled (`"abc"` is `0xaabbcc`).
pub open spec fn expand_nibbles(s: Seq<char>) -> int
    decreases s.len(),
{
    if s.len() == 0 {
        0
    } else {
        expand_nibbles(s.drop_last()) * 256 + hex_value(s.last()) * 17
    }
}

/// `s` without one leading `#`.
pub open spec fn strip_hash(s: Seq<char>) -> Seq<char> {
    if s.len() > 0 && s[0] == '#' {
        s.drop_first()
    } else {
        s
    }
}

/// The color `s` denotes as `0xRRGGBBAA`, or `None` when it is not a color.
pub open spec fn color_value(s: Seq<char>) -> Option<int> {
    let hex = strip_hash(s);
    let n = utf8_len(hex);
    if n == 3 {
        if all_hex(hex) {
            Some(expand_nibbles(hex) * 256 + 255)
        } else {
            None
        }
    } else if n == 4 {
        if all_hex(hex) {
            Some(expand_nibbles(hex))
        } else {
            None
        }
    } else if n == 6 {
        match parse_hex(hex, u32::MAX as int) {
            Some(v) => Some(v * 256 + 255),
            None => None,
        }
    } else if n == 8 {
        parse_hex(hex, u32::MAX as int)
    } else {
        None
    }
}

/// The index of the first character of `s` that is not a hexadecimal digit.
pub open spec fn first_non_hex(s: Seq<char>) -> int
    decreases s.len(),
{
    if s.len() == 0 || !is_hex_digit(s[0]) {
        0
    } else {
        1 + first_non_hex(s.drop_first())
    }
}

/// The `Debug` text of a string: quoted, with special characters escaped.
pub uninterp spec fn spec_debug_str(s: Seq<char>) -> Seq<char>;

/// The `Debug` text of a character: in single quotes, escaped.
pub uninterp spec fn spec_debug_char(c: char) -> Seq<char>;

/// `format!("{:?}", s)`, the `Debug` text of a string.
#[verifier::external_body]
fn debug_str(s: &str) -> (r: String)
    ensures
        r@ == spec_debug_str(s@),
{
    format!("{:?}", s)
}

/// `format!("{:?}", c)`, the `Debug` text of a character.
#[verifier::external_body]
fn debug_char(c: char) -> (r: String)
    ensures
        r@ == spec_debug_char(c),
{
    format!("{:?}", c)
}

/// The message for a color of the wrong length.
pub open spec fn length_message(s: Seq<char>) -> Seq<char> {
    seq!['i', 'n', 'v', 'a', 'l', 'i', 'd', ' ', 'c', 'o', 'l', 'o', 'r', ' ', 'l', 'e', 'n', 'g', 't', 'h', ' ']
        + decimal(utf8_len(strip_hash(s))) + seq![' ', 'i', 'n', ' '] + spec_debug_str(s)
}

/// The message for digits that do not form a number.
pub open spec fn digits_message(hex: Seq<char>) -> Seq<char> {
    seq![
        'i', 'n', 'v', 'a', 'l', 'i', 'd', ' ', 'h', 'e', 'x', ' ', 'd', 'i', 'g', 'i', 't', 's', ' ', 'i',
        'n', ' ', 'c', 'o', 'l', 'o', 'r', ' ',
    ] + spec_debug_str(hex)
}

/// The message for a shorthand holding the non-digit `c`.
pub open spec fn digit_message(c: char) -> Seq<char> {
    seq!['i', 'n', 'v', 'a', 'l', 'i', 'd', ' ', 'h', 'e', 'x', ' ', 'd', 'i', 'g', 'i', 't', ' ']
        + spec_debug_char(c) + seq![' ', 'i', 'n', ' ', 'c', 'o', 'l', 'o', 'r']
}

/// The message that comes with the refusal of `s`.
pub open spec fn color_error_message(s: Seq<char>) -> Seq<char> {
    let hex = strip_hash(s);
    let n = utf8_len(hex);
    if n == 3 || n == 4 {
        digit_message(hex[first_non_hex(hex)])
    } else if n == 6 || n == 8 {
        digits_message(hex)
    } else {
        length_message(s)
    }
}

/// A color as four bytes.
#[derive(Debug, Clone, Copy, PartialEq, Eq, Structural)]
pub struct ColorBytes {
    pub r: u8,
    pub g: u8,
    pub b: u8,
    pub a: u8,
}

impl ColorBytes {
    /// The color as `0xRRGGBBAA`.
    pub open spec fn packed(self) -> int {
        self.r * 0x1000000 + self.g * 0x10000 + self.b * 0x100 + self.a
    }

    /// Parses a hex color string (with or without a leading `#`): `RGB`,
    /// `RGBA`, `RRGGBB` or `RRGGBBAA`. Any other input is an invalid value.
    pub fn from_hex(s: &str) -> (r: Result<ColorBytes, Error>)
        ensures
            r is Ok <==> color_value(s@) is Some,
            r matches Ok(c) ==> color_value(s@) == Some(c.packed()),
            r matches Err(e) ==> e matches Error::InvalidValue(m) && m@ == color_error_message(s@),
    {
        let cs = chars_of(s);
        let hex: Vec<char> = if cs.len() > 0 && cs[0] == '#' {
            let mut h: Vec<char> = Vec::new();
            let mut i: usize = 1;
            while i < cs.len()
                invariant
                    1 <= i <= cs@.len(),
                    h@ == cs@.subrange(1, i as int),
                decreases cs@.len() - i,
            {
                h.push(cs[i]);
                assert(h@ =~= cs@.subrange(1, i + 1));
                i = i + 1;
            }
            assert(h@ =~= cs@.drop_first());
            h
        } else {
            cs
        };
        assert(hex@ == strip_hash(s@));
        let n = byte_len(hex.as_slice());
        proof {
            lemma_len_le_utf8_len(hex@);
        }
        let val: u64 = if n == 3 || n == 4 {
            match expand_chars(hex.as_slice()) {
                Ok(v) => {
                    proof {
                        assert forall|i: int| 0 <= i < hex@.len() implies (#[trigger] hex@[i] == '+'
                            || is_hex_digit(hex@[i])) by {}
                        lemma_ascii_utf8_len(hex@);
                        assert(pow256(3) == 0x100_0000) by {
                reveal_with_fuel(pow256, 4);
            }
                    }
                    if n == 3 {
                        v * 256 + 255
                    } else {
                        v
                    }
                },
                Err(c) => {
                    let d = debug_char(c);
                    let mut mc = chars_of("invalid hex digit ");
                    let mut dc = chars_of(d.as_str());
                    let mut tail = chars_of(" in color");
                    proof {
                        reveal_strlit("invalid hex digit ");
                        reveal_strlit(" in color");
                    }
                    mc.append(&mut dc);
                    mc.append(&mut tail);
                    let m = string_of(mc.as_slice());
                    assert(m@ =~= digit_message(c));
                    return Err(Error::InvalidValue(m));
                },
            }
        } else if n == 6 || n == 8 {
            match parse_hex_chars(hex.as_slice(), 0xFFFF_FFFF) {
                Some(v) => {
                    if n == 6 {
                        proof {
                            lemma_hex_bound(hex@);
                        }
                        v * 256 + 255
                    } else {
                        v
                    }
                },
                None => {
                    let hs = string_of(hex.as_slice());
                    let d = debug_str(hs.as_str());
                    let mut mc = chars_of("invalid hex digits in color ");
                    proof {
                        reveal_strlit("invalid hex digits in color ");
                    }
                    let mut dc = chars_of(d.as_str());
                    mc.append(&mut dc);
                    let m = string_of(mc.as_slice());
                    assert(m@ =~= digits_message(hex@));
                    return Err(Error::InvalidValue(m));
                },
            }
        } else {
            let mut mc = chars_of("invalid color length ");
            proof {
                reveal_strlit("invalid color length ");
                reveal_strlit(" in ");
            }
            let mut m = string_of(mc.as_slice());
            push_decimal(&mut m, n as u64);
            let mut mc2 = chars_of(m.as_str());
            let mut mid = chars_of(" in ");
            let d = debug_str(s);
            let mut dc = chars_of(d.as_str());
            mc2.append(&mut mid);
            mc2.append(&mut dc);
            let m2 = string_of(mc2.as_slice());
            assert(m2@ =~= length_message(s@));
            return Err(Error::InvalidValue(m2));
        };
        assert(val <= 0xFFFF_FFFF);
        let c = ColorBytes {
            r: (val / 0x100_0000) as u8,
            g: ((val / 0x1_0000) % 256) as u8,
            b: ((val / 0x100) % 256) as u8,
            a: (val % 256) as u8,
        };
        assert(c.packed() == val) by (nonlinear_arith)
            requires
                val <= 0xFFFF_FFFF,
                c.r == val / 0x100_0000,
                c.g == (val / 0x1_0000) % 256,
                c.b == (val / 0x100) % 256,
                c.a == val % 256,
        ;
        Ok(c)
    }
}

/// Number of bytes in the UTF-8 encoding of `s`.
fn byte_len(s: &[char]) -> (n: usize)
    ensures
        n == utf8_len(s@),
{
    let t = string_of(s);
    str_utf8_len(t.as_str())
}

/// The value of a hexadecimal digit.
fn hex_digit_value(c: char) -> (r: Option<u64>)
    ensures
        r is Some <==> is_hex_digit(c),
        r matches Some(v) ==> v == hex_value(c) && v < 16,
{
    if '0' <= c && c <= '9' {
        Some((c as u32 - '0' as u32) as u64)
    } else if 'a' <= c && c <= 'f' {
        Some((c as u32 - 'a' as u32 + 10) as u64)
    } else if 'A' <= c && c <= 'F' {
        Some((c as u32 - 'A' as u32 + 10) as u64)
    } else {
        None
    }
}

/// A value of `n` hexadecimal digits is below `16^n`.
proof fn lemma_hex_digits_bound(s: Seq<char>)
    requires
        all_hex(s),
    ensures
        0 <= hex_digits_value(s),
        s.len() <= 8 ==> hex_digits_value(s) < pow16(s.len()),
    decreases s.len(),
{
    if s.len() > 0 {
        assert(is_hex_digit(s.last()));
        assert(all_hex(s.drop_last()));
        lemma_hex_digits_bound(s.drop_last());
    }
}

/// `16^n`.
spec fn pow16(n: nat) -> int
    decreases n,
{
    if n == 0 {
        1
    } else {
        16 * pow16((n - 1) as nat)
    }
}

/// Six hexadecimal digits stay below `2^24`.
proof fn lemma_hex_bound(hex: Seq<char>)
    requires
        utf8_len(hex) == 6,
        parse_hex(hex, u32::MAX as int) is Some,
    ensures
        parse_hex(hex, u32::MAX as int) matches Some(v) && v < 0x100_0000,
{
    let ds = hex;
    lemma_ascii_len(hex);
    lemma_hex_digits_bound(ds);
    assert(pow16(6) == 0x100_0000) by {
        reveal_with_fuel(pow16, 7);
    }
    assert(pow16(5) == 0x10_0000) by {
        reveal_with_fuel(pow16, 6);
    }
}

/// A sequence of hex digits takes one byte per character.
proof fn lemma_ascii_len(hex: Seq<char>)
    requires
        parse_hex(hex, u32::MAX as int) is Some,
    ensures
        utf8_len(hex) == hex.len(),
{
    assert forall|i: int| 0 <= i < hex.len() implies (#[trigger] hex[i] == '+' || is_hex_digit(hex[i])) by {}
    lemma_ascii_utf8_len(hex);
}

/// Characters below `0x80` take one byte each.
proof fn lemma_ascii_utf8_len(s: Seq<char>)
    requires
        forall|i: int| 0 <= i < s.len() ==> (#[trigger] s[i] == '+' || is_hex_digit(s[i])),
    ensures
        utf8_len(s) == s.len(),
    decreases s.len(),
{
    if s.len() > 0 {
        let d = s.drop_last();
        assert(forall|i: int| 0 <= i < d.len() ==> d[i] == s[i]);
        lemma_ascii_utf8_len(d);
        crate::text::lemma_encode_utf8_push(d, s.last());
        assert(d.push(s.last()) =~= s);
        assert(s.last() == '+' || is_hex_digit(s.last()));
        assert((s.last() as u32) < 0x80);
    }
}

/// Parses an optional `+` and hexadecimal digits worth at most `max`, as [`parse_hex`] describes.
pub(crate) fn parse_hex_chars(s: &[char], max: u64) -> (r: Option<u64>)
    requires
        max >= 15,
    ensures
        r is Some <==> parse_hex(s@, max as int) is Some,
        r matches Some(v) ==> parse_hex(s@, max as int) == Some(v as int),
{
    let start: usize = 0;
    let ghost ds = s@;
    assert(ds =~= s@.skip(start as int));
    if start == s.len() {
        return None;
    }
    let mut v: u64 = 0;
    let mut i: usize = start;
    while i < s.len()
        invariant
            max >= 15,
            start <= i <= s@.len(),
            ds == s@.skip(start as int),
            ds == s@,
            v as int == hex_digits_value(s@.subrange(start as int, i as int)),
            v <= max,
            all_hex(s@.subrange(start as int, i as int)),
        decreases s@.len() - i,
    {
        let c = s[i];
        let ghost pre = s@.subrange(start as int, i as int);
        let ghost next = s@.subrange(start as int, i + 1);
        proof {
            assert(next.drop_last() =~= pre);
            assert(next.last() == c);
        }
        let d = match hex_digit_value(c) {
            Some(d) => d,
            None => {
                proof {
                    assert(ds[i - start] == s@[i as int]);
                    assert(!all_hex(ds));
                }
                return None;
            },
        };
        if v > (max - d) / 16 {
            proof {
                assert(hex_digits_value(next) == v * 16 + d);
                assert(v * 16 + d > max) by (nonlinear_arith)
                    requires
                        v > (max - d) / 16,
                        d <= 15,
                        d <= max,
                ;
                assert(ds.take(i + 1 - start) =~= next);
                if all_hex(ds) {
                    lemma_hex_digits_prefix_le(ds, i + 1 - start);
                }
            }
            return None;
        }
        proof {
            assert(v * 16 + d <= max) by (nonlinear_arith)
                requires
                    v <= (max - d) / 16,
                    d <= max,
            ;
            assert forall|k: int| 0 <= k < next.len() implies is_hex_digit(#[trigger] next[k]) by {
                if k < pre.len() {
                    assert(next[k] == pre[k]);
                }
            }
        }
        v = v * 16 + d;
        i = i + 1;
    }
    proof {
        assert(s@.subrange(start as int, i as int) =~= ds);
    }
    Some(v)
}

/// A prefix of hexadecimal digits is worth no more than the whole.
proof fn lemma_hex_digits_prefix_le(s: Seq<char>, k: int)
    requires
        0 <= k <= s.len(),
        all_hex(s),
    ensures
        hex_digits_value(s.take(k)) <= hex_digits_value(s),
    decreases s.len() - k,
{
    if k < s.len() {
        lemma_hex_digits_prefix_le(s, k + 1);
        assert(s.take(k + 1).drop_last() =~= s.take(k));
        assert(is_hex_digit(s[k]));
        assert(all_hex(s.take(k)));
        lemma_hex_digits_bound(s.take(k));
    } else {
        assert(s.take(k) =~= s);
    }
}

/// The doubled-digit value of a shorthand of at most four digits, or the
/// first character that is not a digit.
fn expand_chars(s: &[char]) -> (r: Result<u64, char>)
    requires
        s@.len() <= 4,
    ensures
        r is Ok <==> all_hex(s@),
        r matches Ok(v) ==> v == expand_nibbles(s@) && v < pow256(s@.len()) && v <= 0xFFFF_FFFF,
        r matches Err(c) ==> first_non_hex(s@) < s@.len() && c == s@[first_non_hex(s@)],
{
    let mut v: u64 = 0;
    let mut i: usize = 0;
    while i < s.len()
        invariant
            i <= s@.len() <= 4,
            v == expand_nibbles(s@.take(i as int)),
            v < pow256(i as nat),
            all_hex(s@.take(i as int)),
        decreases s@.len() - i,
    {
        let c = s[i];
        let d = match hex_digit_value(c) {
            Some(d) => d,
            None => {
                proof {
                    lemma_first_non_hex(s@, i as int);
                }
                return Err(c);
            },
        };
        proof {
            assert(s@.take(i + 1).drop_last() =~= s@.take(i as int));
            assert(pow256((i + 1) as nat) == 256 * pow256(i as nat));
            assert(v * 256 + d * 17 < 256 * pow256(i as nat)) by (nonlinear_arith)
                requires
                    v < pow256(i as nat),
                    d < 16,
            ;
            assert(pow256(4) == 0x1_0000_0000) by {
                reveal_with_fuel(pow256, 5);
            }
            lemma_pow256_mono(i + 1, 4);
            assert forall|k: int| 0 <= k < i + 1 implies is_hex_digit(#[trigger] s@.take(i + 1)[k]) by {
                if k < i {
                    assert(s@.take(i + 1)[k] == s@.take(i as int)[k]);
                }
            }
        }
        v = v * 256 + d * 17;
        i = i + 1;
    }
    proof {
        assert(s@.take(i as int) =~= s@);
        assert(pow256(4) == 0x1_0000_0000) by {
                reveal_with_fuel(pow256, 5);
            }
        lemma_pow256_mono(i as int, 4);
    }
    Ok(v)
}

/// `256^n`.
spec fn pow256(n: nat) -> int
    decreases n,
{
    if n == 0 {
        1
    } else {
        256 * pow256((n - 1) as nat)
    }
}

proof fn lemma_pow256_mono(a: int, b: int)
    requires
        0 <= a <= b,
    ensures
        pow256(a as nat) <= pow256(b as nat),
    decreases b - a,
{
    if a < b {
        lemma_pow256_mono(a + 1, b);
        assert(pow256((a + 1) as nat) == 256 * pow256(a as nat));
        lemma_pow256_pos(a as nat);
    }
}

proof fn lemma_pow256_pos(n: nat)
    ensures
        pow256(n) >= 1,
    decreases n,
{
    if n > 0 {
        lemma_pow256_pos((n - 1) as nat);
    }
}

/// When the first `i` characters are digits and the next is not, the first
/// non-digit is at `i`.
proof fn lemma_first_non_hex(s: Seq<char>, i: int)
    requires
        0 <= i < s.len(),
        all_hex(s.take(i)),
        !is_hex_digit(s[i]),
    ensures
        first_non_hex(s) == i,
    decreases i,
{
    if i > 0 {
        assert(s.take(i)[0] == s[0]);
        assert(all_hex(s.drop_first().take(i - 1))) by {
            assert forall|k: int| 0 <= k < i - 1 implies is_hex_digit(#[trigger] s.drop_first().take(i - 1)[k]) by {
                assert(s.drop_first().take(i - 1)[k] == s.take(i)[k + 1]);
            }
        }
        lemma_first_non_hex(s.drop_first(), i - 1);
    }
}

} // verus!
