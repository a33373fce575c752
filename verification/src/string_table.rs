//! Scored string collections.
//!
//! - [`StringVec`] owns its strings (NFC-normalised on insert).
//! - [`StringRefVec`] borrows them.
//!
//! Each entry carries a search score and a history score. Sorting is stable:
//! alphabetical for [`StringVec::sort_alpha`], by history score after
//! [`StringRefVec::apply_history_scores`], and by combined score after
//! [`StringRefVec::filter`].

pub use vstd::hash_map::StringHashMap;
use vstd::prelude::*;

use crate::lexical::{
    lex_compare, lex_le, lemma_lex_antisymmetric, lemma_lex_reflexive, lemma_lex_total, lemma_lex_transitive,
};
use crate::sorting::{
    is_sorted_by, lemma_stable_sort_map, lemma_stable_sort_permutes, lemma_stable_sort_sorted, sort_stable,
    stable_sort, total_preorder,
};
use crate::text::{
    char_utf8_len, chars_of, fields_from, flush_word, lemma_encode_utf8_concat,
    lemma_encode_utf8_push, lemma_utf8_len_take, split_at_char, str_utf8_len, utf8_len,
};
use crate::unicode::{spec_nfc, utf8_normalize};

verus! {

/// A string with its scores, seen as plain values: the characters, the search
/// score and the history score.
pub type ScoredView = (Seq<char>, i32, i32);

/// An owned, NFC-normalised string with search and history scores.
#[derive(Debug, Clone, PartialEq)]
pub struct ScoredString {
    pub string: String,
    pub search_score: i32,
    pub history_score: i32,
}

/// A borrowed string with search and history scores.
#[derive(Debug, Clone, Copy, PartialEq)]
pub struct ScoredStringRef<'a> {
    pub string: &'a str,
    pub search_score: i32,
    pub history_score: i32,
}

/// The plain values of an owned entry.
pub open spec fn owned_view(e: ScoredString) -> ScoredView {
    (e.string@, e.search_score, e.history_score)
}

/// The plain values of a list of owned entries.
pub open spec fn owned_views(s: Seq<ScoredString>) -> Seq<ScoredView> {
    s.map_values(|e: ScoredString| owned_view(e))
}

/// The plain values of a borrowed entry.
pub open spec fn ref_view<'a>(e: ScoredStringRef<'a>) -> ScoredView {
    (e.string@, e.search_score, e.history_score)
}

/// The plain values of a list of borrowed entries.
pub open spec fn ref_views<'a>(s: Seq<ScoredStringRef<'a>>) -> Seq<ScoredView> {
    s.map_values(|e: ScoredStringRef<'a>| ref_view(e))
}

/// Entries with both scores zero for the given strings.
pub open spec fn zero_scored(ts: Seq<Seq<char>>) -> Seq<ScoredView> {
    ts.map_values(|t: Seq<char>| (t, 0i32, 0i32))
}

/// The line feed as a separator predicate.
pub open spec fn newline_sep() -> spec_fn(char) -> bool {
    |c: char| c == '\n'
}

/// The non-empty lines of `s`.
pub open spec fn nonempty_lines(s: Seq<char>) -> Seq<Seq<char>> {
    fields_from(s, Seq::empty(), newline_sep())
}

/// Entries with the history score taken from `scores` where their string is a key.
pub open spec fn with_history(s: Seq<ScoredView>, scores: Map<Seq<char>, i32>) -> Seq<ScoredView> {
    s.map_values(
        |e: ScoredView|
            if scores.contains_key(e.0) {
                (e.0, e.1, scores[e.0])
            } else {
                e
            },
    )
}

/// The entries whose outcome is `Some(score)`, with that score as search score.
pub open spec fn kept(s: Seq<ScoredView>, outs: Seq<Option<i32>>) -> Seq<ScoredView>
    decreases s.len(),
{
    if s.len() == 0 || outs.len() == 0 {
        Seq::empty()
    } else {
        let k = kept(s.drop_last(), outs.drop_last());
        match outs.last() {
            Some(score) => k.push((s.last().0, score, s.last().2)),
            None => k,
        }
    }
}

/// Alphabetical order of entries by their characters.
pub open spec fn alpha_order() -> spec_fn(ScoredView, ScoredView) -> bool {
    |a: ScoredView, b: ScoredView| lex_le(a.0, b.0)
}

/// Descending order of entries by history score.
pub open spec fn history_order() -> spec_fn(ScoredView, ScoredView) -> bool {
    |a: ScoredView, b: ScoredView| a.2 >= b.2
}

/// Descending order of entries by the sum of history and search score.
pub open spec fn combined_order() -> spec_fn(ScoredView, ScoredView) -> bool {
    |a: ScoredView, b: ScoredView| a.2 + a.1 >= b.2 + b.1
}

/// `s` with every run of consecutive entries with equal characters reduced to its first entry.
pub open spec fn dedup_text(s: Seq<ScoredView>) -> Seq<ScoredView>
    decreases s.len(),
{
    if s.len() == 0 {
        s
    } else {
        let d = dedup_text(s.drop_last());
        if d.len() > 0 && d.last().0 == s.last().0 {
            d
        } else {
            d.push(s.last())
        }
    }
}

/// Whether some entry of `s` has the characters `t`.
pub open spec fn has_text(s: Seq<ScoredView>, t: Seq<char>) -> bool {
    exists|i: int| 0 <= i < s.len() && (#[trigger] s[i]).0 == t
}

/// Binary search by characters over entries sorted alphabetically: an index of
/// an entry whose characters are `t`, or `None` when there is none.
fn find_sorted_by_text(texts: &Vec<Vec<char>>, t: &Vec<char>) -> (r: Option<usize>)
    ensures
        r matches Some(i) ==> i < texts@.len() && texts@[i as int]@ == t@,
        r is None && is_sorted_by(texts@.map_values(|v: Vec<char>| (v@, 0i32, 0i32)), alpha_order())
            ==> forall|i: int| 0 <= i < texts@.len() ==> texts@[i]@ != t@,
{
    let ghost vs = texts@.map_values(|v: Vec<char>| (v@, 0i32, 0i32));
    let mut lo: usize = 0;
    let mut hi: usize = texts.len();
    while lo < hi
        invariant
            lo <= hi <= texts@.len(),
            vs == texts@.map_values(|v: Vec<char>| (v@, 0i32, 0i32)),
            is_sorted_by(vs, alpha_order()) ==> forall|i: int| 0 <= i < lo ==> texts@[i]@ != t@,
            is_sorted_by(vs, alpha_order()) ==> forall|i: int|
                hi <= i < texts@.len() ==> texts@[i]@ != t@,
        decreases hi - lo,
    {
        let mid = lo + (hi - lo) / 2;
        let c = lex_compare(texts[mid].as_slice(), t.as_slice());
        if c == 0 {
            return Some(mid);
        } else if c < 0 {
            proof {
                if is_sorted_by(vs, alpha_order()) {
                assert forall|i: int| 0 <= i <= mid implies texts@[i]@ != t@ by {
                    if i < mid {
                        assert(alpha_order()(vs[i], vs[mid as int]));
                        assert(vs[i].0 == texts@[i]@);
                        assert(vs[mid as int].0 == texts@[mid as int]@);
                        if texts@[i]@ == t@ {
                            lemma_lex_antisymmetric(texts@[mid as int]@, t@);
                        }
                    }
                }
                }
            }
            lo = mid + 1;
        } else {
            proof {
                if is_sorted_by(vs, alpha_order()) {
                assert forall|i: int| mid <= i < texts@.len() implies texts@[i]@ != t@ by {
                    if i > mid {
                        assert(alpha_order()(vs[mid as int], vs[i]));
                        assert(vs[i].0 == texts@[i]@);
                        assert(vs[mid as int].0 == texts@[mid as int]@);
                        if texts@[i]@ == t@ {
                            lemma_lex_antisymmetric(texts@[mid as int]@, t@);
                        }
                    }
                }
                }
            }
            hi = mid;
        }
    }
    None
}

// ── StringVec ────────────────────────────────────────────────────────────────

/// Whether `a`'s string comes alphabetically before `b`'s or equals it.
fn owned_alpha_le(a: &ScoredString, b: &ScoredString) -> (r: bool)
    ensures
        r == lex_le(a.string@, b.string@),
{
    let x = chars_of(a.string.as_str());
    let y = chars_of(b.string.as_str());
    proof {
        lemma_lex_reflexive(x@);
    }
    lex_compare(x.as_slice(), y.as_slice()) <= 0
}

/// A growable list of owned, NFC-normalised strings with per-entry scores.
#[derive(Debug, Default, Clone)]
pub struct StringVec {
    entries: Vec<ScoredString>,
}

impl View for StringVec {
    type V = Seq<ScoredView>;

    closed spec fn view(&self) -> Seq<ScoredView> {
        owned_views(self.entries@)
    }
}

impl StringVec {
    /// An empty list.
    pub fn new() -> (v: Self)
        ensures
            v@ == Seq::<ScoredView>::empty(),
    {
        let v = StringVec { entries: Vec::with_capacity(128) };
        assert(v@ =~= Seq::<ScoredView>::empty());
        v
    }

    /// Appends the NFC form of `s`, with both scores zero; an empty `s` is
    /// not added.
    pub fn add(&mut self, s: &str)
        ensures
            s@.len() == 0 ==> final(self)@ == old(self)@,
            s@.len() > 0 ==> final(self)@ == old(self)@.push((spec_nfc(s@), 0i32, 0i32)),
    {
        if str_utf8_len(s) == 0 {
            proof {
                crate::text::lemma_len_le_utf8_len(s@);
            }
            return;
        }
        let e = ScoredString { string: utf8_normalize(s), search_score: 0, history_score: 0 };
        self.entries.push(e);
        assert(self@ =~= old(self)@.push((spec_nfc(s@), 0i32, 0i32)));
    }

    /// Sorts the entries alphabetically, keeping equal strings in insertion order.
    pub fn sort_alpha(&mut self)
        ensures
            final(self)@ == stable_sort(old(self)@, alpha_order()),
    {
        let mut entries: Vec<ScoredString> = Vec::new();
        std::mem::swap(&mut entries, &mut self.entries);
        let ghost before = entries@;
        let ghost rel_e = |a: ScoredString, b: ScoredString| lex_le(a.string@, b.string@);
        let sorted = sort_stable(
            entries,
            Ghost(rel_e),
            owned_alpha_le,
        );
        proof {
            lemma_stable_sort_map(
                before,
                |e: ScoredString| owned_view(e),
                alpha_order(),
                rel_e,
            );
        }
        self.entries = sorted;
    }

    /// Sorts alphabetically, then drops every entry whose string equals the
    /// string of the entry kept before it.
    pub fn dedup(&mut self)
        ensures
            final(self)@ == dedup_text(stable_sort(old(self)@, alpha_order())),
    {
        self.sort_alpha();
        let ghost sorted = self@;
        let mut rest: Vec<ScoredString> = Vec::new();
        std::mem::swap(&mut rest, &mut self.entries);
        let mut out: Vec<ScoredString> = Vec::new();
        let mut last: Vec<char> = Vec::new();
        let n = rest.len();
        let mut k: usize = 0;
        proof {
            assert(sorted.take(0) =~= Seq::<ScoredView>::empty());
            assert(owned_views(rest@) =~= sorted.skip(0));
        }
        while rest.len() > 0
            invariant
                n == sorted.len(),
                k + rest@.len() == sorted.len(),
                owned_views(rest@) == sorted.skip(k as int),
                owned_views(out@) == dedup_text(sorted.take(k as int)),
                out@.len() > 0 ==> last@ == out@.last().string@,
            decreases rest@.len(),
        {
            let ghost old_rest = rest@;
            let e = rest.remove(0);
            let cs = chars_of(e.string.as_str());
            let ghost prev = owned_views(out@);
            proof {
                assert(sorted.skip(k as int)[0] == owned_view(e));
                assert(sorted.take(k + 1).drop_last() =~= sorted.take(k as int));
                assert(sorted.take(k + 1).last() == owned_view(e));
                assert forall|i: int| 0 <= i < rest@.len() implies #[trigger] owned_views(rest@)[i]
                    == sorted.skip(k + 1)[i] by {
                    assert(rest@[i] == old_rest[i + 1]);
                    assert(owned_views(old_rest)[i + 1] == sorted.skip(
                        k as int,
                    )[i + 1]);
                }
                assert(owned_views(rest@) =~= sorted.skip(k + 1));
                if out@.len() > 0 {
                    assert(prev.last() == owned_view(out@.last()));
                }
            }
            let same = out.len() > 0 && lex_compare(last.as_slice(), cs.as_slice()) == 0;
            if !same {
                out.push(e);
                last = cs;
                proof {
                    assert(owned_views(out@) =~= prev.push(sorted.take(k + 1).last()));
                }
            }
            k = k + 1;
        }
        proof {
            assert(sorted.take(k as int) =~= sorted);
        }
        self.entries = out;
    }

    /// For entries sorted alphabetically: an index of an entry whose string is
    /// `s`, or `None` when there is none. Any index returned holds `s`.
    pub fn find_sorted(&self, s: &str) -> (r: Option<usize>)
        ensures
            r matches Some(i) ==> i < self@.len() && self@[i as int].0 == s@,
            r is None && is_sorted_by(self@, alpha_order()) ==> !has_text(self@, s@),
    {
        let mut texts: Vec<Vec<char>> = Vec::new();
        let mut i: usize = 0;
        while i < self.entries.len()
            invariant
                i <= self.entries@.len(),
                texts@.len() == i,
                forall|j: int| 0 <= j < i ==> (#[trigger] texts@[j])@ == self.entries@[j].string@,
            decreases self.entries@.len() - i,
        {
            texts.push(chars_of(self.entries[i].string.as_str()));
            i = i + 1;
        }
        let t = chars_of(s);
        let r = find_sorted_by_text(&texts, &t);
        proof {
            let tv = texts@.map_values(|v: Vec<char>| (v@, 0i32, 0i32));
            assert forall|j: int| 0 <= j < self@.len() implies (#[trigger] self@[j]).0 == texts@[j]@
                && tv[j].0 == self@[j].0 by {
                assert(self@[j] == owned_view(self.entries@[j]));
            }
            if is_sorted_by(self@, alpha_order()) {
                assert forall|a: int, b: int| 0 <= a < b < tv.len() implies alpha_order()(
                    #[trigger] tv[a],
                    #[trigger] tv[b],
                ) by {
                    assert(alpha_order()(self@[a], self@[b]));
                }
            }
            if r is None && is_sorted_by(self@, alpha_order()) {
                assert forall|j: int| 0 <= j < self@.len() && (#[trigger] self@[j]).0 == s@ implies false by {
                    assert(texts@[j]@ != t@);
                }
            }
        }
        r
    }

    /// The entries, in order.
    pub fn entries(&self) -> (r: &[ScoredString])
        ensures
            owned_views(r@) == self@,
    {
        self.entries.as_slice()
    }

    /// Number of entries.
    pub fn len(&self) -> (n: usize)
        ensures
            n == self@.len(),
    {
        self.entries.len()
    }

    /// Whether there are no entries.
    pub fn is_empty(&self) -> (b: bool)
        ensures
            b == (self@.len() == 0),
    {
        self.entries.len() == 0
    }
}

// ── StringRefVec ─────────────────────────────────────────────────────────────

/// Whether `a`'s string comes alphabetically before `b`'s or equals it.
fn ref_alpha_le<'a>(a: &ScoredStringRef<'a>, b: &ScoredStringRef<'a>) -> (r: bool)
    ensures
        r == lex_le(a.string@, b.string@),
{
    let x = chars_of(a.string);
    let y = chars_of(b.string);
    proof {
        lemma_lex_reflexive(x@);
    }
    lex_compare(x.as_slice(), y.as_slice()) <= 0
}

/// Whether `a`'s history score is at least `b`'s.
fn ref_history_ge<'a>(a: &ScoredStringRef<'a>, b: &ScoredStringRef<'a>) -> (r: bool)
    ensures
        r == (a.history_score >= b.history_score),
{
    a.history_score >= b.history_score
}

/// Whether `a`'s combined score is at least `b`'s.
fn ref_combined_ge<'a>(a: &ScoredStringRef<'a>, b: &ScoredStringRef<'a>) -> (r: bool)
    ensures
        r == (a.history_score + a.search_score >= b.history_score + b.search_score),
{
    a.history_score as i64 + a.search_score as i64 >= b.history_score as i64 + b.search_score as i64
}

/// A growable list of borrowed strings with per-entry scores.
#[derive(Debug, Default, Clone)]
pub struct StringRefVec<'a> {
    pub entries: Vec<ScoredStringRef<'a>>,
}

impl<'a> View for StringRefVec<'a> {
    type V = Seq<ScoredView>;

    open spec fn view(&self) -> Seq<ScoredView> {
        ref_views(self.entries@)
    }
}

impl<'a> StringRefVec<'a> {
    /// An empty list.
    pub fn new() -> (v: Self)
        ensures
            v@ == Seq::<ScoredView>::empty(),
    {
        let v = StringRefVec { entries: Vec::with_capacity(128) };
        assert(v@ =~= Seq::<ScoredView>::empty());
        v
    }

    /// Appends `s` without copying, with both scores zero.
    pub fn add(&mut self, s: &'a str)
        ensures
            final(self)@ == old(self)@.push((s@, 0i32, 0i32)),
    {
        self.entries.push(ScoredStringRef { string: s, search_score: 0, history_score: 0 });
        assert(self@ =~= old(self)@.push((s@, 0i32, 0i32)));
    }

    /// One entry per non-empty line of `buffer` (lines end at `'\n'`), in order.
    pub fn from_lines(buffer: &'a str) -> (v: Self)
        ensures
            v@ == zero_scored(nonempty_lines(buffer@)),
    {
        let mut v = Self::new();
        let cs = chars_of(buffer);
        let total = str_utf8_len(buffer);
        let ghost b = buffer@;
        let ghost sep = newline_sep();
        let mut i: usize = 0;
        let mut off: usize = 0;
        let mut ls: usize = 0;
        let mut lb: usize = 0;
        proof {
            assert(b.subrange(0, b.len() as int) =~= b);
            assert(b.take(0) =~= Seq::<char>::empty());
            assert(b.subrange(0, 0) =~= Seq::<char>::empty());
            assert(v@ + zero_scored(nonempty_lines(b)) =~= zero_scored(nonempty_lines(b)));
        }
        while i < cs.len()
            invariant
                cs@ == b,
                b == buffer@,
                sep == newline_sep(),
                total == utf8_len(b),
                ls <= i <= b.len(),
                off == utf8_len(b.take(i as int)),
                lb == utf8_len(b.take(ls as int)),
                v@ + zero_scored(fields_from(b.subrange(i as int, b.len() as int), b.subrange(ls as int, i as int), sep))
                    == zero_scored(nonempty_lines(b)),
            decreases b.len() - i,
        {
            let c = cs[i];
            let ghost rest = b.subrange(i as int, b.len() as int);
            let ghost cur = b.subrange(ls as int, i as int);
            proof {
                assert(rest[0] == c);
                assert(rest.drop_first() =~= b.subrange(i + 1, b.len() as int));
                lemma_encode_utf8_push(b.take(i as int), c);
                assert(b.take(i as int).push(c) =~= b.take(i + 1));
                lemma_utf8_len_take(b, i + 1);
            }
            let w = char_utf8_len(c);
            if c == '\n' {
                if i > ls {
                    let line = self_slice(buffer, Ghost(ls as int), lb, Ghost(i as int), off);
                    let ghost before = v@;
                    v.add(line);
                    proof {
                        assert(cur.len() > 0);
                        assert(zero_scored(flush_word(cur)) =~= seq![(cur, 0i32, 0i32)]);
                        assert(zero_scored(flush_word(cur) + fields_from(rest.drop_first(), Seq::empty(), sep))
                            =~= zero_scored(flush_word(cur)) + zero_scored(fields_from(rest.drop_first(), Seq::empty(), sep)));
                    }
                } else {
                    proof {
                        assert(cur =~= Seq::<char>::empty());
                        assert(flush_word(cur) + fields_from(rest.drop_first(), Seq::empty(), sep)
                            =~= fields_from(rest.drop_first(), Seq::empty(), sep));
                    }
                }
                off = off + w;
                i = i + 1;
                ls = i;
                lb = off;
                proof {
                    assert(b.subrange(ls as int, i as int) =~= Seq::<char>::empty());
                }
            } else {
                proof {
                    assert(cur.push(c) =~= b.subrange(ls as int, i + 1));
                }
                off = off + w;
                i = i + 1;
            }
        }
        proof {
            assert(b.subrange(i as int, b.len() as int) =~= Seq::<char>::empty());
        }
        if i > ls {
            let line = self_slice(buffer, Ghost(ls as int), lb, Ghost(i as int), off);
            v.add(line);
            proof {
                assert(zero_scored(flush_word(b.subrange(ls as int, i as int))) =~= seq![(b.subrange(ls as int, i as int), 0i32, 0i32)]);
            }
        } else {
            proof {
                assert(zero_scored(flush_word(b.subrange(ls as int, i as int))) =~= Seq::<ScoredView>::empty());
                assert(v@ + Seq::<ScoredView>::empty() =~= v@);
            }
        }
        v
    }

    /// A copy of the list that shares the same string references.
    pub fn clone_shallow(&self) -> (v: Self)
        ensures
            v@ == self@,
    {
        let v = StringRefVec { entries: self.entries.clone() };
        assert(v.entries@ =~= self.entries@);
        v
    }

    /// Sets each entry's history score from `scores` where its string is a key
    /// (other entries keep theirs), then sorts by history score, highest first,
    /// keeping equal scores in their previous order.
    pub fn apply_history_scores(&mut self, scores: &StringHashMap<i32>)
        ensures
            final(self)@ == stable_sort(with_history(old(self)@, scores@), history_order()),
    {
        let mut i: usize = 0;
        while i < self.entries.len()
            invariant
                i <= self.entries@.len(),
                self.entries@.len() == old(self).entries@.len(),
                forall|j: int| 0 <= j < i ==> ref_view(#[trigger] self.entries@[j]) == with_history(old(self)@, scores@)[j],
                forall|j: int| i <= j < self.entries@.len() ==> #[trigger] self.entries@[j] == old(self).entries@[j],
            decreases self.entries@.len() - i,
        {
            let mut e = self.entries[i];
            match scores.get(e.string) {
                Some(score) => {
                    e.history_score = *score;
                },
                None => {},
            }
            self.entries.set(i, e);
            i = i + 1;
        }
        assert(self@ =~= with_history(old(self)@, scores@));
        let mut entries: Vec<ScoredStringRef<'a>> = Vec::new();
        std::mem::swap(&mut entries, &mut self.entries);
        let ghost before = entries@;
        let ghost rel_e = |a: ScoredStringRef<'a>, b: ScoredStringRef<'a>| a.history_score >= b.history_score;
        let sorted = sort_stable(entries, Ghost(rel_e), ref_history_ge);
        proof {
            lemma_stable_sort_map(before, |e: ScoredStringRef<'a>| ref_view(e), history_order(), rel_e);
        }
        self.entries = sorted;
    }

    /// For a non-empty `query`: the entries for which `predicate` gives a score,
    /// with that score as search score, sorted by history plus search score,
    /// highest first, equal sums keeping their order. For an empty `query`: a
    /// copy of the list.
    pub fn filter<F: Fn(&str) -> Option<i32>>(&self, query: &str, predicate: F) -> (v: StringRefVec<'a>)
        requires
            forall|s: &str| #[trigger] predicate.requires((s,)),
        ensures
            query@.len() == 0 ==> v@ == self@,
            query@.len() > 0 ==> exists|outs: Seq<Option<i32>>|
                #![trigger kept(self@, outs)]
                outs.len() == self@.len() && (forall|i: int|
                    0 <= i < outs.len() ==> predicate.ensures((self.entries@[i].string,), #[trigger] outs[i]))
                    && v@ == stable_sort(kept(self@, outs), combined_order()),
    {
        if query.is_empty() {
            return self.clone_shallow();
        }
        let mut result: Vec<ScoredStringRef<'a>> = Vec::new();
        let ghost mut outs: Seq<Option<i32>> = Seq::empty();
        let mut i: usize = 0;
        while i < self.entries.len()
            invariant
                forall|s: &str| #[trigger] predicate.requires((s,)),
                i <= self.entries@.len(),
                outs.len() == i,
                forall|j: int| 0 <= j < i ==> predicate.ensures((self.entries@[j].string,), #[trigger] outs[j]),
                ref_views(result@) == kept(self@.take(i as int), outs),
            decreases self.entries@.len() - i,
        {
            let e = self.entries[i];
            let o = predicate(e.string);
            proof {
                assert(self@.take(i + 1).drop_last() =~= self@.take(i as int));
                assert(outs.push(o).drop_last() =~= outs);
                assert(self@.take(i + 1).last() == ref_view(e));
            }
            let ghost prev = ref_views(result@);
            match o {
                Some(score) => {
                    result.push(ScoredStringRef { string: e.string, search_score: score, history_score: e.history_score });
                    assert(ref_views(result@) =~= prev.push((e.string@, score, e.history_score)));
                },
                None => {},
            }
            proof {
                outs = outs.push(o);
            }
            i = i + 1;
        }
        assert(self@.take(i as int) =~= self@);
        let ghost before = result@;
        let ghost rel_e = |a: ScoredStringRef<'a>, b: ScoredStringRef<'a>| a.history_score + a.search_score >= b.history_score + b.search_score;
        let sorted = sort_stable(result, Ghost(rel_e), ref_combined_ge);
        proof {
            lemma_stable_sort_map(before, |e: ScoredStringRef<'a>| ref_view(e), combined_order(), rel_e);
        }
        StringRefVec { entries: sorted }
    }

    /// For entries sorted alphabetically: an index of an entry whose string is
    /// `s`, or `None` when there is none. Any index returned holds `s`.
    pub fn find_sorted(&self, s: &str) -> (r: Option<usize>)
        ensures
            r matches Some(i) ==> i < self@.len() && self@[i as int].0 == s@,
            r is None && is_sorted_by(self@, alpha_order()) ==> !has_text(self@, s@),
    {
        let mut texts: Vec<Vec<char>> = Vec::new();
        let mut i: usize = 0;
        while i < self.entries.len()
            invariant
                i <= self.entries@.len(),
                texts@.len() == i,
                forall|j: int| 0 <= j < i ==> (#[trigger] texts@[j])@ == self.entries@[j].string@,
            decreases self.entries@.len() - i,
        {
            texts.push(chars_of(self.entries[i].string));
            i = i + 1;
        }
        let t = chars_of(s);
        let r = find_sorted_by_text(&texts, &t);
        proof {
            let tv = texts@.map_values(|v: Vec<char>| (v@, 0i32, 0i32));
            assert forall|j: int| 0 <= j < self@.len() implies (#[trigger] self@[j]).0 == texts@[j]@
                && tv[j].0 == self@[j].0 by {
                assert(self@[j] == ref_view(self.entries@[j]));
            }
            if is_sorted_by(self@, alpha_order()) {
                assert forall|a: int, b: int| 0 <= a < b < tv.len() implies alpha_order()(
                    #[trigger] tv[a],
                    #[trigger] tv[b],
                ) by {
                    assert(alpha_order()(self@[a], self@[b]));
                }
            }
            if r is None && is_sorted_by(self@, alpha_order()) {
                assert forall|j: int| 0 <= j < self@.len() && (#[trigger] self@[j]).0 == s@ implies false by {
                    assert(texts@[j]@ != t@);
                }
            }
        }
        r
    }

    /// The entries, in order.
    pub fn entries(&self) -> (r: &[ScoredStringRef<'a>])
        ensures
            r@ == self.entries@,
            ref_views(r@) == self@,
    {
        self.entries.as_slice()
    }

    /// Number of entries.
    pub fn len(&self) -> (n: usize)
        ensures
            n == self@.len(),
    {
        self.entries.len()
    }

    /// Whether there are no entries.
    pub fn is_empty(&self) -> (b: bool)
        ensures
            b == (self@.len() == 0),
    {
        self.entries.len() == 0
    }
}

/// The characters of `s` from index `from` up to index `to`, whose byte offsets are `from_b` and `to_b`.
fn self_slice<'a>(s: &'a str, Ghost(from): Ghost<int>, from_b: usize, Ghost(to): Ghost<int>, to_b: usize) -> (r: &'a str)
    requires
        0 <= from <= to <= s@.len(),
        from_b == utf8_len(s@.take(from)),
        to_b == utf8_len(s@.take(to)),
    ensures
        r@ == s@.subrange(from, to),
{
    proof {
        lemma_encode_utf8_concat(s@.take(from), s@.subrange(from, to));
        assert(s@.take(from) + s@.subrange(from, to) =~= s@.take(to));
    }
    let (_, rest) = split_at_char(s, Ghost(from), from_b);
    proof {
        assert(rest@.take(to - from) =~= s@.subrange(from, to));
    }
    let (line, _) = split_at_char(rest, Ghost(to - from), to_b - from_b);
    line
}

// ── Laws ─────────────────────────────────────────────────────────────────────

/// Alphabetical order is a total preorder.
pub proof fn lemma_alpha_total_preorder()
    ensures
        total_preorder(alpha_order()),
{
    assert forall|a: ScoredView, b: ScoredView| #[trigger] alpha_order()(a, b) || #[trigger] alpha_order()(b, a) by {
        lemma_lex_total(a.0, b.0);
    }
    assert forall|a: ScoredView, b: ScoredView, c: ScoredView|
        #[trigger] alpha_order()(a, b) && #[trigger] alpha_order()(b, c) implies alpha_order()(a, c) by {
        lemma_lex_transitive(a.0, b.0, c.0);
    }
}

/// Sorting alphabetically leaves the entries in alphabetical order and keeps
/// every entry, as often as it occurred.
pub proof fn law_sort_alpha(s: Seq<ScoredView>)
    ensures
        is_sorted_by(stable_sort(s, alpha_order()), alpha_order()),
        stable_sort(s, alpha_order()).to_multiset() == s.to_multiset(),
{
    lemma_alpha_total_preorder();
    lemma_stable_sort_sorted(s, alpha_order());
    lemma_stable_sort_permutes(s, alpha_order());
}

/// What `dedup_text` keeps of a sequence sorted by text: a sorted sequence of
/// its entries in which no two entries share their text, holding every text.
proof fn lemma_dedup_sorted(t: Seq<ScoredView>)
    requires
        is_sorted_by(t, alpha_order()),
    ensures
        is_sorted_by(dedup_text(t), alpha_order()),
        forall|i: int, j: int| 0 <= i < j < dedup_text(t).len() ==> #[trigger] dedup_text(t)[i].0 != #[trigger] dedup_text(t)[j].0,
        forall|i: int| 0 <= i < dedup_text(t).len() ==> has_text(t, #[trigger] dedup_text(t)[i].0),
        forall|i: int| 0 <= i < t.len() ==> has_text(dedup_text(t), #[trigger] t[i].0),
    decreases t.len(),
{
    if t.len() > 0 {
        let u = t.drop_last();
        let x = t.last();
        assert(is_sorted_by(u, alpha_order())) by {
            assert forall|i: int, j: int| 0 <= i < j < u.len() implies alpha_order()(#[trigger] u[i], #[trigger] u[j]) by {
                assert(u[i] == t[i] && u[j] == t[j]);
            }
        }
        lemma_dedup_sorted(u);
        let d = dedup_text(u);
        // Every entry of `d` carries a text of `u`, which comes no later than `x`.
        assert forall|i: int| 0 <= i < d.len() implies lex_le(#[trigger] d[i].0, x.0) by {
            assert(has_text(u, d[i].0));
            let k = choose|k: int| 0 <= k < u.len() && (#[trigger] u[k]).0 == d[i].0;
            assert(u[k] == t[k]);
            assert(alpha_order()(t[k], t[t.len() - 1]));
        }
        if d.len() > 0 && d.last().0 == x.0 {
            assert forall|i: int| 0 <= i < t.len() implies has_text(d, #[trigger] t[i].0) by {
                if i < t.len() - 1 {
                    assert(t[i] == u[i]);
                } else {
                    assert(d[d.len() - 1].0 == x.0);
                }
            }
            assert forall|i: int| 0 <= i < d.len() implies has_text(t, #[trigger] d[i].0) by {
                let k = choose|k: int| 0 <= k < u.len() && (#[trigger] u[k]).0 == d[i].0;
                assert(t[k] == u[k]);
            }
        } else {
            let e = d.push(x);
            assert forall|i: int, j: int| 0 <= i < j < e.len() implies alpha_order()(#[trigger] e[i], #[trigger] e[j]) by {
                if j < d.len() {
                    assert(e[i] == d[i] && e[j] == d[j]);
                } else {
                    assert(e[i] == d[i]);
                }
            }
            assert forall|i: int, j: int| 0 <= i < j < e.len() implies #[trigger] e[i].0 != #[trigger] e[j].0 by {
                if j < d.len() {
                    assert(e[i] == d[i] && e[j] == d[j]);
                } else {
                    assert(e[i] == d[i]);
                    if d[i].0 == x.0 {
                        let l = d.len() - 1;
                        assert(lex_le(d[l].0, x.0));
                        if i < l {
                            assert(alpha_order()(d[i], d[l]));
                        } else {
                            lemma_lex_reflexive(d[l].0);
                        }
                        lemma_lex_antisymmetric(d[l].0, x.0);
                    }
                }
            }
            assert forall|i: int| 0 <= i < t.len() implies has_text(e, #[trigger] t[i].0) by {
                if i < t.len() - 1 {
                    assert(t[i] == u[i]);
                    let k = choose|k: int| 0 <= k < d.len() && (#[trigger] d[k]).0 == u[i].0;
                    assert(e[k] == d[k]);
                } else {
                    assert(e[e.len() - 1] == x);
                }
            }
            assert forall|i: int| 0 <= i < e.len() implies has_text(t, #[trigger] e[i].0) by {
                if i < d.len() {
                    assert(e[i] == d[i]);
                    let k = choose|k: int| 0 <= k < u.len() && (#[trigger] u[k]).0 == d[i].0;
                    assert(t[k] == u[k]);
                } else {
                    assert(t[t.len() - 1] == x);
                }
            }
        }
    }
}

/// After `dedup`, the entries are in alphabetical order, no two of them share
/// their text, every text they hold was in the list, and every text of the
/// list is still there.
pub proof fn law_dedup(s: Seq<ScoredView>)
    ensures
        ({
            let d = dedup_text(stable_sort(s, alpha_order()));
            &&& is_sorted_by(d, alpha_order())
            &&& forall|i: int, j: int| 0 <= i < j < d.len() ==> #[trigger] d[i].0 != #[trigger] d[j].0
            &&& forall|i: int| 0 <= i < d.len() ==> has_text(s, #[trigger] d[i].0)
            &&& forall|i: int| 0 <= i < s.len() ==> has_text(d, #[trigger] s[i].0)
        }),
{
    let t = stable_sort(s, alpha_order());
    law_sort_alpha(s);
    lemma_dedup_sorted(t);
    s.to_multiset_ensures();
    t.to_multiset_ensures();
    assert forall|i: int| 0 <= i < s.len() implies has_text(t, #[trigger] s[i].0) by {
        assert(s.contains(s[i]));
        assert(t.to_multiset().count(s[i]) > 0);
        assert(t.contains(s[i]));
    }
    assert forall|i: int| 0 <= i < dedup_text(t).len() implies has_text(s, #[trigger] dedup_text(t)[i].0) by {
        let k = choose|k: int| 0 <= k < t.len() && (#[trigger] t[k]).0 == dedup_text(t)[i].0;
        assert(t.contains(t[k]));
        assert(s.to_multiset().count(t[k]) > 0);
        assert(s.contains(t[k]));
    }
    assert forall|i: int| 0 <= i < s.len() implies has_text(dedup_text(t), #[trigger] s[i].0) by {
        let k = choose|k: int| 0 <= k < t.len() && (#[trigger] t[k]).0 == s[i].0;
        assert(has_text(dedup_text(t), t[k].0));
    }
}

} // verus!
