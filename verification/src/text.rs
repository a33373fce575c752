//! Building blocks for moving between `&str`/`String` and character sequences,
//! and for measuring the UTF-8 encoding of character sequences.

use vstd::prelude::*;
use vstd::std_specs::iter::IteratorSpec;
use vstd::string::StringSliceAdditionalSpecFns;
use vstd::utf8::*;

verus! {

broadcast use vstd::utf8::char_is_scalar;

/// Length in bytes of the UTF-8 encoding of `s`.
pub open spec fn utf8_len(s: Seq<char>) -> nat {
    encode_utf8(s).len()
}

/// Length in bytes of the UTF-8 encoding of the single character `c`.
pub open spec fn char_width(c: char) -> nat {
    encode_scalar(c as u32).len()
}

/// A sequence never takes fewer bytes than it has characters.
pub proof fn lemma_len_le_utf8_len(s: Seq<char>)
    ensures
        s.len() <= utf8_len(s),
    decreases s.len(),
{
    if s.len() > 0 {
        lemma_len_le_utf8_len(s.drop_last());
        crate::text::lemma_encode_utf8_push(s.drop_last(), s.last());
        assert(s.drop_last().push(s.last()) =~= s);
    }
}

/// Encoding a concatenation encodes each part in turn.
pub proof fn lemma_encode_utf8_concat(a: Seq<char>, b: Seq<char>)
    ensures
        encode_utf8(a + b) == encode_utf8(a) + encode_utf8(b),
    decreases a.len(),
{
    if a.len() == 0 {
        assert(a + b =~= b);
        assert(encode_utf8(a) + encode_utf8(b) =~= encode_utf8(b));
    } else {
        assert((a + b).drop_first() =~= a.drop_first() + b);
        assert((a + b)[0] == a[0]);
        lemma_encode_utf8_concat(a.drop_first(), b);
        assert(encode_utf8(a + b) =~= encode_utf8(a) + encode_utf8(b));
    }
}

/// Appending a character appends its encoding.
pub proof fn lemma_encode_utf8_push(s: Seq<char>, c: char)
    ensures
        encode_utf8(s.push(c)) == encode_utf8(s) + encode_scalar(c as u32),
        utf8_len(s.push(c)) == utf8_len(s) + char_width(c),
{
    lemma_encode_utf8_concat(s, seq![c]);
    assert(s.push(c) =~= s + seq![c]);
    assert(seq![c].drop_first() =~= Seq::<char>::empty());
    assert(encode_utf8(seq![c]) =~= encode_scalar(c as u32) + encode_utf8(Seq::<char>::empty()));
    assert(encode_utf8(seq![c]) =~= encode_scalar(c as u32));
}

/// A prefix never encodes to more bytes than the whole sequence.
pub proof fn lemma_utf8_len_take(s: Seq<char>, k: int)
    requires
        0 <= k <= s.len(),
    ensures
        utf8_len(s.take(k)) <= utf8_len(s),
{
    lemma_encode_utf8_concat(s.take(k), s.skip(k));
    assert(s.take(k) + s.skip(k) =~= s);
}

/// Equal encodings come from equal character sequences.
pub proof fn lemma_encode_utf8_injective(a: Seq<char>, b: Seq<char>)
    requires
        encode_utf8(a) == encode_utf8(b),
    ensures
        a == b,
{
    encode_utf8_decode_utf8(a);
    encode_utf8_decode_utf8(b);
}

/// The byte offset of every character index is a character boundary of the encoding.
pub proof fn lemma_char_boundary(s: Seq<char>, k: int)
    requires
        0 <= k <= s.len(),
    ensures
        is_char_boundary(encode_utf8(s), utf8_len(s.take(k)) as int),
    decreases k,
{
    encode_utf8_valid_utf8(s);
    if k > 0 {
        let bytes = encode_utf8(s);
        let d = s.drop_first();
        encode_utf8_first_scalar(s);
        assert(pop_first_scalar(bytes) =~= encode_utf8(d));
        assert(s.take(k) =~= seq![s[0]] + d.take(k - 1));
        lemma_encode_utf8_concat(seq![s[0]], d.take(k - 1));
        lemma_encode_utf8_push(Seq::<char>::empty(), s[0]);
        assert(Seq::<char>::empty().push(s[0]) =~= seq![s[0]]);
        assert(encode_utf8(Seq::<char>::empty()) =~= Seq::<u8>::empty());
        lemma_utf8_len_take(s, k);
        lemma_char_boundary(d, k - 1);
    }
}

/// Splits `s` before the character with index `k`, whose byte offset is `off`.
pub(crate) fn split_at_char<'a>(s: &'a str, Ghost(k): Ghost<int>, off: usize) -> (r: (
    &'a str,
    &'a str,
))
    requires
        0 <= k <= s@.len(),
        off == utf8_len(s@.take(k)),
    ensures
        r.0@ == s@.take(k),
        r.1@ == s@.skip(k),
{
    proof {
        lemma_char_boundary(s@, k);
        lemma_encode_utf8_concat(s@.take(k), s@.skip(k));
        assert(s@.take(k) + s@.skip(k) =~= s@);
    }
    let r = s.split_at(off);
    proof {
        assert(r.0.spec_bytes() =~= encode_utf8(s@.take(k)));
        assert(r.1.spec_bytes() =~= encode_utf8(s@.skip(k)));
        lemma_encode_utf8_injective(r.0@, s@.take(k));
        lemma_encode_utf8_injective(r.1@, s@.skip(k));
    }
    r
}

/// The field being built, as a list of zero or one fields.
pub open spec fn flush_word(cur: Seq<char>) -> Seq<Seq<char>> {
    if cur.len() > 0 {
        seq![cur]
    } else {
        Seq::empty()
    }
}

/// The non-empty fields of `s` between separator characters, given that `cur`
/// has already been read as the start of the current field.
pub open spec fn fields_from(s: Seq<char>, cur: Seq<char>, sep: spec_fn(char) -> bool) -> Seq<
    Seq<char>,
>
    decreases s.len(),
{
    if s.len() == 0 {
        flush_word(cur)
    } else if sep(s[0]) {
        flush_word(cur) + fields_from(s.drop_first(), Seq::empty(), sep)
    } else {
        fields_from(s.drop_first(), cur.push(s[0]), sep)
    }
}

/// `l` without one trailing carriage return.
pub open spec fn strip_cr(l: Seq<char>) -> Seq<char> {
    if l.len() > 0 && l.last() == '\r' {
        l.drop_last()
    } else {
        l
    }
}

/// The lines of `s` as `str::lines` yields them, given that `cur` has already
/// been read as the start of the current line: lines end at `'\n'`, one `'\r'`
/// before the `'\n'` is dropped, and an empty last line is not a line.
pub open spec fn lines_from(s: Seq<char>, cur: Seq<char>) -> Seq<Seq<char>>
    decreases s.len(),
{
    if s.len() == 0 {
        if cur.len() > 0 {
            seq![cur]
        } else {
            Seq::empty()
        }
    } else if s[0] == '\n' {
        seq![strip_cr(cur)] + lines_from(s.drop_first(), Seq::empty())
    } else {
        lines_from(s.drop_first(), cur.push(s[0]))
    }
}

/// The lines of `s`.
pub open spec fn text_lines(s: Seq<char>) -> Seq<Seq<char>> {
    lines_from(s, Seq::empty())
}

/// Appends one character to a string (`String::push`).
#[verifier::external_body]
pub(crate) fn push_char(s: &mut String, c: char)
    ensures
        final(s)@ == old(s)@.push(c),
{
    s.push(c);
}

/// The characters of `s`, in order.
pub fn chars_of(s: &str) -> (v: Vec<char>)
    ensures
        v@ == s@,
{
    let mut v: Vec<char> = Vec::new();
    for c in it: s.chars()
        invariant
            it.seq() == s@,
            v@ == it.seq().take(it.index() as int),
    {
        v.push(c);
    }
    v
}

/// A string holding exactly the characters `cs`.
pub fn string_of(cs: &[char]) -> (s: String)
    ensures
        s@ == cs@,
{
    let mut s = String::new();
    let mut i: usize = 0;
    while i < cs.len()
        invariant
            i <= cs@.len(),
            s@ == cs@.take(i as int),
        decreases cs@.len() - i,
    {
        push_char(&mut s, cs[i]);
        assert(cs@.take(i as int).push(cs@[i as int]) =~= cs@.take(i + 1));
        i = i + 1;
    }
    assert(cs@.take(cs@.len() as int) =~= cs@);
    s
}

/// Number of bytes in the UTF-8 encoding of `c` (`char::len_utf8`).
pub fn char_utf8_len(c: char) -> (n: usize)
    ensures
        n == char_width(c),
        1 <= n <= 4,
{
    let v = c as u32;
    if v < 0x80 {
        1
    } else if v < 0x800 {
        2
    } else if v < 0x10000 {
        3
    } else {
        4
    }
}

/// Number of bytes in the UTF-8 encoding of `s` (`str::len`).
pub fn str_utf8_len(s: &str) -> (n: usize)
    ensures
        n == utf8_len(s@),
{
    s.as_bytes().len()
}

/// The character sequences held by a list of character vectors.
pub open spec fn views(ws: Seq<Vec<char>>) -> Seq<Seq<char>> {
    ws.map_values(|w: Vec<char>| w@)
}

/// The characters of each string.
pub open spec fn string_views(v: Seq<String>) -> Seq<Seq<char>> {
    v.map_values(|s: String| s@)
}

/// Reading a line that holds no line feed, then the rest.
pub proof fn lemma_lines_from_line(w: Seq<char>, r: Seq<char>, cur: Seq<char>)
    requires
        forall|i: int| 0 <= i < w.len() ==> w[i] != '\n',
    ensures
        lines_from(w + seq!['\n'] + r, cur) == seq![strip_cr(cur + w)] + lines_from(r, Seq::empty()),
    decreases w.len(),
{
    let s = w + seq!['\n'] + r;
    if w.len() == 0 {
        assert(s[0] == '\n');
        assert(s.drop_first() =~= r);
        assert(cur + w =~= cur);
    } else {
        assert(s[0] == w[0]);
        assert(s.drop_first() =~= w.drop_first() + seq!['\n'] + r);
        lemma_lines_from_line(w.drop_first(), r, cur.push(w[0]));
        assert(cur.push(w[0]) + w.drop_first() =~= cur + w);
    }
}

} // verus!
