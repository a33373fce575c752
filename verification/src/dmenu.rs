//! Candidates read as lines of text, as `dmenu` reads them.

use vstd::prelude::*;
use vstd::string::StringSliceAdditionalSpecFns;
use vstd::utf8::{decode_utf8, encode_utf8_decode_utf8, valid_utf8};

use crate::text::{chars_of, string_of};
use crate::unicode::{spec_nfc, str_from_utf8, utf8_normalize};

verus! {

/// The index of the first newline byte at or after `i`.
pub open spec fn newline_from(b: Seq<u8>, i: int) -> Option<int>
    decreases b.len() - i,
{
    if i < 0 || i >= b.len() {
        None
    } else if b[i] == 10 {
        Some(i)
    } else {
        newline_from(b, i + 1)
    }
}

/// The pieces that reading line by line takes from `b`: each up to and
/// including a newline, the last one possibly without.
pub open spec fn byte_lines(b: Seq<u8>) -> Seq<Seq<u8>>
    decreases b.len(),
{
    if b.len() == 0 {
        Seq::empty()
    } else {
        match newline_from(b, 0) {
            Some(i) => {
                if 0 <= i < b.len() {
                    seq![b.take(i + 1)] + byte_lines(b.skip(i + 1))
                } else {
                    seq![b]
                }
            },
            None => seq![b],
        }
    }
}

/// `s` without its trailing carriage returns and line feeds.
pub open spec fn trim_line_end(s: Seq<char>) -> Seq<char>
    decreases s.len(),
{
    if s.len() > 0 && (s.last() == '\r' || s.last() == '\n') {
        trim_line_end(s.drop_last())
    } else {
        s
    }
}

/// The candidates that the pieces `ls` give: each piece without its line
/// ending, empty ones skipped, NFC-normalised when asked; reading stops at
/// the first piece that is not well-formed UTF-8.
pub open spec fn line_items(ls: Seq<Seq<u8>>, normalize: bool) -> Seq<Seq<char>>
    decreases ls.len(),
{
    if ls.len() == 0 || !valid_utf8(ls[0]) {
        Seq::empty()
    } else {
        let t = trim_line_end(decode_utf8(ls[0]));
        let rest = line_items(ls.drop_first(), normalize);
        if t.len() == 0 {
            rest
        } else {
            seq![if normalize { spec_nfc(t) } else { t }] + rest
        }
    }
}

/// The characters of each string.
pub open spec fn item_views(v: Seq<String>) -> Seq<Seq<char>> {
    v.map_values(|s: String| s@)
}

proof fn lemma_newline_from(b: Seq<u8>, i: int)
    requires
        0 <= i,
    ensures
        newline_from(b, i) matches Some(k) ==> i <= k < b.len() && b[k] == 10,
        newline_from(b, i) is None ==> forall|j: int| i <= j < b.len() ==> b[j] != 10,
    decreases b.len() - i,
{
    if i < b.len() && b[i] != 10 {
        lemma_newline_from(b, i + 1);
    }
}

/// `newline_from` on a suffix is `newline_from` on the whole, shifted.
proof fn lemma_newline_from_skip(b: Seq<u8>, s: int, i: int)
    requires
        0 <= s <= b.len(),
        0 <= i,
    ensures
        newline_from(b.skip(s), i) == (match newline_from(b, s + i) {
            Some(k) => Some(k - s),
            None => None,
        }),
    decreases b.len() - s - i,
{
    if s + i < b.len() && b[s + i] != 10 {
        lemma_newline_from_skip(b, s, i + 1);
    }
}

/// `s` without trailing carriage returns and line feeds, as [`trim_line_end`] says.
fn trim_line_end_exec(s: &[char]) -> (r: Vec<char>)
    ensures
        r@ == trim_line_end(s@),
{
    let mut n = s.len();
    proof {
        assert(s@.take(n as int) =~= s@);
    }
    while n > 0 && (s[n - 1] == '\r' || s[n - 1] == '\n')
        invariant
            n <= s@.len(),
            trim_line_end(s@) == trim_line_end(s@.take(n as int)),
        decreases n,
    {
        assert(s@.take(n as int).drop_last() =~= s@.take(n - 1));
        n = n - 1;
    }
    crate::chars::sub_chars(s, 0, n)
}

/// The candidates in `bytes`, read line by line as [`line_items`] and
/// [`byte_lines`] say.
pub fn read_lines_from(bytes: &[u8], normalize: bool) -> (items: Vec<String>)
    ensures
        item_views(items@) == line_items(byte_lines(bytes@), normalize),
{
    let mut items: Vec<String> = Vec::new();
    let mut start: usize = 0;
    let ghost b = bytes@;
    proof {
        assert(b.skip(0) =~= b);
    }
    while start < bytes.len()
        invariant_except_break
            start <= b.len(),
            b == bytes@,
            line_items(byte_lines(b), normalize) == item_views(items@) + line_items(
                byte_lines(b.skip(start as int)),
                normalize,
            ),
        ensures
            item_views(items@) == line_items(byte_lines(b), normalize),
        decreases b.len() - start,
    {
        let ghost rest = b.skip(start as int);
        let mut end = start;
        while end < bytes.len() && bytes[end] != 10
            invariant
                start <= end <= b.len(),
                b == bytes@,
                forall|j: int| start <= j < end ==> b[j] != 10,
            decreases b.len() - end,
        {
            end = end + 1;
        }
        proof {
            lemma_newline_from(rest, 0);
            if end < b.len() {
                assert(rest[end - start] == 10);
                assert forall|j: int| 0 <= j < end - start implies rest[j] != 10 by {
                    assert(rest[j] == b[start + j]);
                }
                lemma_newline_first(rest, end - start);
            } else {
                assert forall|j: int| 0 <= j < rest.len() implies rest[j] != 10 by {
                    assert(rest[j] == b[start + j]);
                }
                lemma_newline_none(rest);
            }
        }
        let next = if end < bytes.len() {
            end + 1
        } else {
            end
        };
        let piece = &bytes[start..next];
        proof {
            assert(piece@ =~= rest.take(next - start));
            if end < b.len() {
                assert(rest.skip(next - start) =~= b.skip(next as int));
            } else {
                assert(rest.take(next - start) =~= rest);
                assert(b.skip(next as int) =~= Seq::<u8>::empty());
            }
            assert(byte_lines(rest) =~= seq![piece@] + byte_lines(b.skip(next as int)));
            assert((seq![piece@] + byte_lines(b.skip(next as int))).drop_first() =~= byte_lines(
                b.skip(next as int),
            ));
        }
        match str_from_utf8(piece) {
            Err(_) => {
                assert(item_views(items@) + Seq::<Seq<char>>::empty() =~= item_views(items@));
                break;
            },
            Ok(text) => {
                proof {
                    encode_utf8_decode_utf8(text@);
                }
                let cs = chars_of(text);
                let t = trim_line_end_exec(cs.as_slice());
                if t.len() > 0 {
                    let line = string_of(t.as_slice());
                    let item = if normalize {
                        utf8_normalize(line.as_str())
                    } else {
                        line
                    };
                    let ghost before = items@;
                    items.push(item);
                    proof {
                        assert(item_views(items@) =~= item_views(before).push(item@));
                    }
                }
            },
        }
        start = next;
    }
    items
}

proof fn lemma_newline_first(r: Seq<u8>, k: int)
    requires
        0 <= k < r.len(),
        r[k] == 10,
        forall|j: int| 0 <= j < k ==> r[j] != 10,
    ensures
        newline_from(r, 0) == Some(k),
{
    lemma_newline_scan(r, 0, k);
}

proof fn lemma_newline_scan(r: Seq<u8>, i: int, k: int)
    requires
        0 <= i <= k < r.len(),
        r[k] == 10,
        forall|j: int| i <= j < k ==> r[j] != 10,
    ensures
        newline_from(r, i) == Some(k),
    decreases k - i,
{
    if i < k {
        lemma_newline_scan(r, i + 1, k);
    }
}

proof fn lemma_newline_none(r: Seq<u8>)
    requires
        forall|j: int| 0 <= j < r.len() ==> r[j] != 10,
    ensures
        newline_from(r, 0) is None,
{
    lemma_newline_none_from(r, 0);
}

proof fn lemma_newline_none_from(r: Seq<u8>, i: int)
    requires
        0 <= i,
        forall|j: int| i <= j < r.len() ==> r[j] != 10,
    ensures
        newline_from(r, i) is None,
    decreases r.len() - i,
{
    if i < r.len() {
        lemma_newline_none_from(r, i + 1);
    }
}

} // verus!
