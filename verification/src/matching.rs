//! Matching a query against a candidate string.
//!
//! Three algorithms share one shape: the query is NFC-normalised and split on
//! ASCII whitespace into words; every word must match, otherwise the score is
//! `i32::MIN`; a larger score is a better match.
//!
//! - [`MatchingAlgorithm::Normal`]: each word must occur case-insensitively
//!   somewhere in the candidate; the score is minus the sum of the byte offsets.
//! - [`MatchingAlgorithm::Prefix`]: each word must occur case-insensitively at
//!   the start; the score is minus the sum of the unmatched character counts.
//! - [`MatchingAlgorithm::Fuzzy`]: each word's characters must occur in order;
//!   the score rewards adjacency, word starts and camel-case humps.

use vstd::prelude::*;

use crate::sorting::{
    is_sorted_by, lemma_stable_sort_all, lemma_stable_sort_map, lemma_stable_sort_sorted, sort_stable, stable_sort,
    total_preorder,
};
use crate::text::{chars_of, fields_from, flush_word, str_utf8_len, string_views, utf8_len, views};
use crate::unicode::{
    casefold, first_occurrence, fold_owner_from, lemma_fold_owner_bound, lower1, spec_is_alphanumeric, spec_is_lowercase, spec_is_uppercase, spec_nfc,
    spec_strcasestr, strcasestr_chars, utf32_isalnum, utf32_islower, utf32_isupper,
    utf32_tolower, utf8_normalize,
};

verus! {

/// The matching algorithm used to filter candidates.
#[derive(Debug, Clone, Copy, PartialEq, Eq, Structural)]
pub enum MatchingAlgorithm {
    /// Case-insensitive substring match of every query word.
    Normal,
    /// Every query word must be a case-insensitive prefix of the candidate.
    Prefix,
    /// Every query word's characters must appear in order.
    Fuzzy,
}

impl Default for MatchingAlgorithm {
    fn default() -> (a: Self)
        ensures
            a == MatchingAlgorithm::Normal,
    {
        MatchingAlgorithm::Normal
    }
}

// ── Words of a query ─────────────────────────────────────────────────────────

/// ASCII whitespace: space, tab, line feed, form feed and carriage return.
pub open spec fn is_ascii_ws(c: char) -> bool {
    c == ' ' || c == '\t' || c == '\n' || c == '\x0C' || c == '\r'
}

/// ASCII whitespace as a separator predicate.
pub open spec fn ascii_ws_sep() -> spec_fn(char) -> bool {
    |c: char| is_ascii_ws(c)
}

/// The words of `s`, as `str::split_ascii_whitespace` yields them.
pub open spec fn ascii_words(s: Seq<char>) -> Seq<Seq<char>> {
    fields_from(s, Seq::empty(), ascii_ws_sep())
}

/// Splits `s` into its words, as [`ascii_words`] describes.
pub(crate) fn split_ascii_words(s: &Vec<char>) -> (ws: Vec<Vec<char>>)
    ensures
        views(ws@) == ascii_words(s@),
{
    let mut ws: Vec<Vec<char>> = Vec::new();
    let mut cur: Vec<char> = Vec::new();
    let mut i: usize = 0;
    proof {
        assert(s@.subrange(0, s@.len() as int) =~= s@);
        assert(views(ws@) + ascii_words(s@) =~= ascii_words(s@));
    }
    while i < s.len()
        invariant
            i <= s@.len(),
            views(ws@) + fields_from(s@.subrange(i as int, s@.len() as int), cur@, ascii_ws_sep()) == ascii_words(
                s@,
            ),
        decreases s@.len() - i,
    {
        let c = s[i];
        let ghost rest = s@.subrange(i as int, s@.len() as int);
        proof {
            assert(rest[0] == c);
            assert(rest.drop_first() =~= s@.subrange(i + 1, s@.len() as int));
        }
        if c == ' ' || c == '\t' || c == '\n' || c == '\x0C' || c == '\r' {
            if cur.len() > 0 {
                let ghost before = ws@;
                ws.push(cur);
                proof {
                    assert(views(ws@) =~= views(before) + flush_word(cur@));
                }
            } else {
                assert(flush_word(cur@) =~= Seq::<Seq<char>>::empty());
                assert(views(ws@) + Seq::<Seq<char>>::empty() =~= views(ws@));
            }
            cur = Vec::new();
            proof {
                assert(views(ws@) + fields_from(s@.subrange(i + 1, s@.len() as int), cur@, ascii_ws_sep()) =~= ascii_words(s@)) by {
                    assert(cur@ =~= Seq::<char>::empty());
                }
            }
        } else {
            cur.push(c);
        }
        i = i + 1;
    }
    proof {
        assert(s@.subrange(i as int, s@.len() as int) =~= Seq::<char>::empty());
    }
    if cur.len() > 0 {
        let ghost before = ws@;
        ws.push(cur);
        proof {
            assert(views(ws@) =~= views(before) + flush_word(cur@));
        }
    } else {
        assert(views(ws@) + flush_word(cur@) =~= views(ws@));
    }
    ws
}

// ── Saturating and wrapping arithmetic on scores ─────────────────────────────

/// `i32::saturating_sub`.
pub open spec fn sat_sub(a: i32, b: i32) -> i32 {
    if a - b > i32::MAX {
        i32::MAX
    } else if a - b < i32::MIN {
        i32::MIN
    } else {
        (a - b) as i32
    }
}

/// `i32::saturating_add`.
pub open spec fn sat_add(a: i32, b: i32) -> i32 {
    if a + b > i32::MAX {
        i32::MAX
    } else if a + b < i32::MIN {
        i32::MIN
    } else {
        (a + b) as i32
    }
}

fn saturating_sub_i32(a: i32, b: i32) -> (r: i32)
    ensures
        r == sat_sub(a, b),
{
    let d = a as i64 - b as i64;
    if d > i32::MAX as i64 {
        i32::MAX
    } else if d < i32::MIN as i64 {
        i32::MIN
    } else {
        d as i32
    }
}

fn saturating_add_i32(a: i32, b: i32) -> (r: i32)
    ensures
        r == sat_add(a, b),
{
    let d = a as i64 + b as i64;
    if d > i32::MAX as i64 {
        i32::MAX
    } else if d < i32::MIN as i64 {
        i32::MIN
    } else {
        d as i32
    }
}

// ── Normal ───────────────────────────────────────────────────────────────────

/// Score of the words `ws` under the normal algorithm, starting from `acc`.
pub open spec fn normal_score(s: Seq<char>, ws: Seq<Seq<char>>, acc: i32) -> i32
    decreases ws.len(),
{
    if ws.len() == 0 {
        acc
    } else {
        match spec_strcasestr(s, ws[0]) {
            Some(o) => normal_score(s, ws.drop_first(), sat_sub(acc, o as i32)),
            None => i32::MIN,
        }
    }
}

// ── Prefix ───────────────────────────────────────────────────────────────────

/// Score of the words `ws` under the prefix algorithm, starting from `acc`.
pub open spec fn prefix_score(s: Seq<char>, ws: Seq<Seq<char>>, acc: i32) -> i32
    decreases ws.len(),
{
    if ws.len() == 0 {
        acc
    } else if spec_strcasestr(s, ws[0]) == Some(0int) {
        prefix_score(
            s,
            ws.drop_first(),
            sat_sub(
                acc,
                vstd::wrapping::i32_specs::wrapping_sub(s.len() as i32, ws[0].len() as i32),
            ),
        )
    } else {
        i32::MIN
    }
}

// ── Fuzzy ────────────────────────────────────────────────────────────────────

/// Bonus for a character matched right after the previous match.
pub const ADJACENCY_BONUS: i32 = 15;

/// Bonus for a match that follows a non-alphanumeric separator.
pub const SEPARATOR_BONUS: i32 = 30;

/// Bonus for an uppercase match that follows a lowercase character.
pub const CAMEL_BONUS: i32 = 30;

/// Bonus for matching the very first character of the candidate.
pub const FIRST_LETTER_BONUS: i32 = 15;

/// Penalty per candidate character skipped before the first match.
pub const LEADING_LETTER_PENALTY: i32 = -5;

/// Floor of the total leading-character penalty.
pub const MAX_LEADING_LETTER_PENALTY: i32 = -15;

/// Penalty per candidate character left unmatched.
pub const UNMATCHED_LETTER_PENALTY: i32 = -1;

/// Candidates longer than this are matched greedily, first match only.
pub const FIRST_MATCH_ONLY_ABOVE: usize = 100;

/// The longest candidate for which the leading-letter penalty of every
/// position is computed without wrapping around.
pub open spec fn fuzzy_length_limit() -> int {
    429_496_730
}

/// Score earned by matching candidate character `cur` after skipping `jump`
/// characters, where `prev` is the character before it (if any) and `first`
/// tells whether this is the first character of the word.
pub open spec fn char_score(jump: i32, first: bool, cur: char, prev: Option<char>) -> i32 {
    let adjacency: int = if !first && jump == 0 {
        ADJACENCY_BONUS as int
    } else {
        0
    };
    let shape: int = match prev {
        Some(p) => if !first || jump > 0 {
            (if spec_is_uppercase(cur) && spec_is_lowercase(p) {
                CAMEL_BONUS as int
            } else {
                0
            }) + (if spec_is_alphanumeric(cur) && !spec_is_alphanumeric(p) {
                SEPARATOR_BONUS as int
            } else {
                0
            })
        } else {
            0
        },
        None => 0,
    };
    let start: int = if first && jump == 0 {
        FIRST_LETTER_BONUS as int
    } else {
        0
    };
    let leading: i32 = if first {
        let pen = vstd::wrapping::i32_specs::wrapping_mul(LEADING_LETTER_PENALTY, jump);
        if pen > MAX_LEADING_LETTER_PENALTY {
            pen
        } else {
            MAX_LEADING_LETTER_PENALTY
        }
    } else {
        0
    };
    vstd::wrapping::i32_specs::wrapping_add((adjacency + shape + start) as i32, leading)
}

/// Best score of matching the word `p` within `h`, where `prev` is the
/// character just before `h` and `score` was earned by the match that led here.
pub open spec fn fuzzy_rec(
    p: Seq<char>,
    h: Seq<char>,
    prev: Option<char>,
    score: i32,
    first_only: bool,
    first: bool,
) -> i32
    decreases p.len(), h.len() + 1,
{
    if p.len() == 0 {
        score
    } else {
        let best = fuzzy_scan(p, h, prev, first_only, first, 0, i32::MIN);
        if best == i32::MIN {
            i32::MIN
        } else {
            sat_add(score, best)
        }
    }
}

/// The best over candidate positions `j..` of `h` where the first character of
/// `p` can be matched, starting from the best `best` found before `j`.
pub open spec fn fuzzy_scan(
    p: Seq<char>,
    h: Seq<char>,
    prev: Option<char>,
    first_only: bool,
    first: bool,
    j: int,
    best: i32,
) -> i32
    decreases p.len(), h.len() - j,
{
    if j < 0 || j >= h.len() || p.len() == 0 {
        best
    } else {
        let ch = h[j];
        let before = if j == 0 {
            prev
        } else {
            Some(h[j - 1])
        };
        if lower1(ch) == lower1(p[0]) {
            let sub = fuzzy_rec(
                p.drop_first(),
                h.skip(j + 1),
                Some(ch),
                char_score(j as i32, first, ch, before),
                first_only,
                false,
            );
            let nb = if sub != i32::MIN && sub > best {
                sub
            } else {
                best
            };
            if first_only {
                nb
            } else {
                fuzzy_scan(p, h, prev, first_only, first, j + 1, nb)
            }
        } else {
            fuzzy_scan(p, h, prev, first_only, first, j + 1, best)
        }
    }
}

/// Fuzzy score of the single word `p` against `s`.
pub open spec fn spec_fuzzy_match(p: Seq<char>, s: Seq<char>) -> i32 {
    if p.len() == 0 {
        0
    } else if s.len() < p.len() {
        i32::MIN
    } else {
        fuzzy_rec(
            p,
            s,
            None,
            vstd::wrapping::i32_specs::wrapping_mul(
                UNMATCHED_LETTER_PENALTY,
                (s.len() - p.len()) as i32,
            ),
            s.len() > FIRST_MATCH_ONLY_ABOVE,
            true,
        )
    }
}

/// Score of the words `ws` under the fuzzy algorithm, starting from `acc`.
pub open spec fn fuzzy_score(s: Seq<char>, ws: Seq<Seq<char>>, acc: i32) -> i32
    decreases ws.len(),
{
    if ws.len() == 0 {
        acc
    } else {
        let w = spec_fuzzy_match(ws[0], s);
        if w == i32::MIN {
            i32::MIN
        } else {
            fuzzy_score(s, ws.drop_first(), sat_add(acc, w))
        }
    }
}

/// The score that [`match_words`] gives `s` for the query `patterns`.
pub open spec fn spec_match_words(algorithm: MatchingAlgorithm, patterns: Seq<char>, s: Seq<char>) -> i32 {
    let ws = ascii_words(spec_nfc(patterns));
    match algorithm {
        MatchingAlgorithm::Normal => normal_score(s, ws, 0),
        MatchingAlgorithm::Prefix => prefix_score(s, ws, 0),
        MatchingAlgorithm::Fuzzy => fuzzy_score(s, ws, 0),
    }
}

// ── Implementation ───────────────────────────────────────────────────────────

/// Score of `s` for the query `patterns` under `algorithm`; `i32::MIN` when it
/// does not match, larger is better.
pub fn match_words(algorithm: MatchingAlgorithm, patterns: &str, s: &str) -> (score: i32)
    ensures
        score == spec_match_words(algorithm, patterns@, s@),
{
    match algorithm {
        MatchingAlgorithm::Normal => simple_match_words(patterns, s),
        MatchingAlgorithm::Prefix => prefix_match_words(patterns, s),
        MatchingAlgorithm::Fuzzy => fuzzy_match_words(patterns, s),
    }
}

/// The words of the NFC form of `patterns`.
fn query_words(patterns: &str) -> (ws: Vec<Vec<char>>)
    ensures
        views(ws@) == ascii_words(spec_nfc(patterns@)),
{
    let normalised = utf8_normalize(patterns);
    let qs = chars_of(normalised.as_str());
    split_ascii_words(&qs)
}

/// Every query word must occur in `s`, ignoring case; the score is minus the
/// sum of the byte offsets of the first occurrences (saturating), or
/// `i32::MIN` when a word is missing.
pub fn simple_match_words(patterns: &str, s: &str) -> (score: i32)
    ensures
        score == spec_match_words(MatchingAlgorithm::Normal, patterns@, s@),
{
    let ws = query_words(patterns);
    let cs = chars_of(s);
    let sb = str_utf8_len(s);
    simple_match_chars(&ws, &cs, sb)
}

/// Every query word must start `s`, ignoring case; the score is minus the sum
/// of the lengths of the rest of `s` (saturating), or `i32::MIN` when a word
/// does not start `s`.
pub fn prefix_match_words(patterns: &str, s: &str) -> (score: i32)
    ensures
        score == spec_match_words(MatchingAlgorithm::Prefix, patterns@, s@),
{
    let ws = query_words(patterns);
    let cs = chars_of(s);
    let sb = str_utf8_len(s);
    prefix_match_chars(&ws, &cs, sb)
}

/// The sum (saturating) of the fuzzy scores of the query words, or `i32::MIN`
/// when one of them does not match.
pub fn fuzzy_match_words(patterns: &str, s: &str) -> (score: i32)
    ensures
        score == spec_match_words(MatchingAlgorithm::Fuzzy, patterns@, s@),
{
    let ws = query_words(patterns);
    let cs = chars_of(s);
    fuzzy_match_chars(&ws, &cs)
}

/// The fuzzy score of the single word `pattern` against `s`, or `i32::MIN`
/// when its characters do not all occur in order.
pub fn fuzzy_match(pattern: &str, s: &str) -> (score: i32)
    ensures
        score == spec_fuzzy_match(pattern@, s@),
{
    let p = chars_of(pattern);
    let cs = chars_of(s);
    fuzzy_match_word(&p, &cs)
}

// ── Results of a query ───────────────────────────────────────────────────────

/// The candidates among `entries` that match `query` under `algorithm`, each
/// with its score, in their order.
pub open spec fn match_pairs(entries: Seq<Seq<char>>, algorithm: MatchingAlgorithm, query: Seq<char>) -> Seq<
    (i32, Seq<char>),
>
    decreases entries.len(),
{
    if entries.len() == 0 {
        Seq::empty()
    } else {
        let prev = match_pairs(entries.drop_last(), algorithm, query);
        let sc = spec_match_words(algorithm, query, entries.last());
        if sc > i32::MIN {
            prev.push((sc, entries.last()))
        } else {
            prev
        }
    }
}

/// Scored candidates, highest score first.
pub open spec fn score_first() -> spec_fn((i32, Seq<char>), (i32, Seq<char>)) -> bool {
    |a: (i32, Seq<char>), b: (i32, Seq<char>)| a.0 >= b.0
}

/// The results shown for `query`: every candidate while the query is empty;
/// else the candidates that match, highest score first, equal scores keeping
/// the candidates' order.
pub open spec fn spec_filter_results(entries: Seq<Seq<char>>, algorithm: MatchingAlgorithm, query: Seq<char>) -> Seq<
    Seq<char>,
> {
    if query.len() == 0 {
        entries
    } else {
        stable_sort(match_pairs(entries, algorithm, query), score_first()).map_values(
            |p: (i32, Seq<char>)| p.1,
        )
    }
}

/// The plain values of a scored candidate.
pub open spec fn pair_view() -> spec_fn((i32, String)) -> (i32, Seq<char>) {
    |p: (i32, String)| (p.0, p.1@)
}

fn score_ge(a: &(i32, String), b: &(i32, String)) -> (r: bool)
    ensures
        r == (a.0 >= b.0),
{
    a.0 >= b.0
}

/// The results shown for `query` among `all_entries`, as
/// [`spec_filter_results`] describes.
pub fn filter_results(all_entries: &[String], query: &str, algorithm: MatchingAlgorithm) -> (r: Vec<String>)
    ensures
        string_views(r@) == spec_filter_results(string_views(all_entries@), algorithm, query@),
{
    let ghost es = string_views(all_entries@);
    let qc = chars_of(query);
    if qc.len() == 0 {
        let mut out: Vec<String> = Vec::new();
        let mut i: usize = 0;
        while i < all_entries.len()
            invariant
                i <= all_entries@.len(),
                es == string_views(all_entries@),
                string_views(out@) == es.take(i as int),
            decreases all_entries@.len() - i,
        {
            let ghost prev = out@;
            let c = all_entries[i].clone();
            out.push(c);
            assert(es[i as int] == c@);
            assert(string_views(out@) =~= string_views(prev).push(c@));
            assert(string_views(out@) =~= es.take(i + 1));
            i = i + 1;
        }
        assert(es.take(i as int) =~= es);
        return out;
    }
    let mut pairs: Vec<(i32, String)> = Vec::new();
    let mut i: usize = 0;
    proof {
        assert(es.take(0) =~= Seq::<Seq<char>>::empty());
        assert(pairs@.map_values(pair_view()) =~= Seq::<(i32, Seq<char>)>::empty());
    }
    while i < all_entries.len()
        invariant
            i <= all_entries@.len(),
            es == string_views(all_entries@),
            pairs@.map_values(pair_view()) == match_pairs(es.take(i as int), algorithm, query@),
        decreases all_entries@.len() - i,
    {
        let score = match_words(algorithm, query, all_entries[i].as_str());
        let ghost before = pairs@;
        proof {
            assert(es.take(i + 1).drop_last() =~= es.take(i as int));
            assert(es.take(i + 1).last() == all_entries@[i as int]@);
        }
        if score > i32::MIN {
            pairs.push((score, all_entries[i].clone()));
            assert(pairs@.map_values(pair_view()) =~= before.map_values(pair_view()).push(
                (score, all_entries@[i as int]@),
            ));
        }
        i = i + 1;
    }
    assert(es.take(i as int) =~= es);
    let ghost unsorted = pairs@;
    let ghost rel_e = |a: (i32, String), b: (i32, String)| a.0 >= b.0;
    let sorted = sort_stable(pairs, Ghost(rel_e), score_ge);
    proof {
        lemma_stable_sort_map(unsorted, pair_view(), score_first(), rel_e);
    }
    let ghost target = spec_filter_results(es, algorithm, query@);
    let mut out: Vec<String> = Vec::new();
    let mut j: usize = 0;
    proof {
        assert(sorted@.map_values(pair_view()).map_values(|p: (i32, Seq<char>)| p.1) =~= target);
    }
    while j < sorted.len()
        invariant
            j <= sorted@.len(),
            sorted@.map_values(pair_view()).map_values(|p: (i32, Seq<char>)| p.1) == target,
            string_views(out@) == target.take(j as int),
        decreases sorted@.len() - j,
    {
        let ghost prev = out@;
        let c = sorted[j].1.clone();
        out.push(c);
        proof {
            assert(target[j as int] == sorted@[j as int].1@);
            assert(string_views(out@) =~= string_views(prev).push(c@));
            assert(string_views(out@) =~= target.take(j + 1));
        }
        j = j + 1;
    }
    assert(target.take(j as int) =~= target);
    out
}

fn simple_match_chars(ws: &Vec<Vec<char>>, s: &Vec<char>, s_bytes: usize) -> (score: i32)
    requires
        s_bytes == utf8_len(s@),
    ensures
        score == normal_score(s@, views(ws@), 0),
{
    let mut score: i32 = 0;
    let mut i: usize = 0;
    proof {
        assert(views(ws@).subrange(0, ws@.len() as int) =~= views(ws@));
    }
    while i < ws.len()
        invariant
            s_bytes == utf8_len(s@),
            i <= ws@.len(),
            normal_score(s@, views(ws@), 0) == normal_score(
                s@,
                views(ws@).subrange(i as int, ws@.len() as int),
                score,
            ),
        decreases ws@.len() - i,
    {
        let ghost rest = views(ws@).subrange(i as int, ws@.len() as int);
        proof {
            assert(views(ws@)[i as int] == ws@[i as int]@);
            assert(rest[0] == ws@[i as int]@);
            assert(rest.drop_first() =~= views(ws@).subrange(i + 1, ws@.len() as int));
        }
        match strcasestr_chars(s, &ws[i], s_bytes) {
            Some(offset) => {
                #[verifier::truncate]
                let o = offset as i32;
                score = saturating_sub_i32(score, o);
            },
            None => return i32::MIN,
        }
        i = i + 1;
    }
    proof {
        assert(views(ws@).subrange(i as int, ws@.len() as int) =~= Seq::<Seq<char>>::empty());
    }
    score
}

fn prefix_match_chars(ws: &Vec<Vec<char>>, s: &Vec<char>, s_bytes: usize) -> (score: i32)
    requires
        s_bytes == utf8_len(s@),
    ensures
        score == prefix_score(s@, views(ws@), 0),
{
    let mut score: i32 = 0;
    let mut i: usize = 0;
    proof {
        assert(views(ws@).subrange(0, ws@.len() as int) =~= views(ws@));
    }
    #[verifier::truncate]
    let slen = s.len() as i32;
    while i < ws.len()
        invariant
            s_bytes == utf8_len(s@),
            slen == s@.len() as i32,
            i <= ws@.len(),
            prefix_score(s@, views(ws@), 0) == prefix_score(
                s@,
                views(ws@).subrange(i as int, ws@.len() as int),
                score,
            ),
        decreases ws@.len() - i,
    {
        let ghost rest = views(ws@).subrange(i as int, ws@.len() as int);
        proof {
            assert(views(ws@)[i as int] == ws@[i as int]@);
            assert(rest[0] == ws@[i as int]@);
            assert(rest.drop_first() =~= views(ws@).subrange(i + 1, ws@.len() as int));
        }
        match strcasestr_chars(s, &ws[i], s_bytes) {
            Some(0) => {
                #[verifier::truncate]
                let wlen = ws[i].len() as i32;
                let penalty = slen.wrapping_sub(wlen);
                score = saturating_sub_i32(score, penalty);
            },
            _ => return i32::MIN,
        }
        i = i + 1;
    }
    proof {
        assert(views(ws@).subrange(i as int, ws@.len() as int) =~= Seq::<Seq<char>>::empty());
    }
    score
}

fn fuzzy_match_chars(ws: &Vec<Vec<char>>, s: &Vec<char>) -> (score: i32)
    ensures
        score == fuzzy_score(s@, views(ws@), 0),
{
    let mut total: i32 = 0;
    let mut i: usize = 0;
    proof {
        assert(views(ws@).subrange(0, ws@.len() as int) =~= views(ws@));
    }
    while i < ws.len()
        invariant
            i <= ws@.len(),
            fuzzy_score(s@, views(ws@), 0) == fuzzy_score(
                s@,
                views(ws@).subrange(i as int, ws@.len() as int),
                total,
            ),
        decreases ws@.len() - i,
    {
        let ghost rest = views(ws@).subrange(i as int, ws@.len() as int);
        proof {
            assert(views(ws@)[i as int] == ws@[i as int]@);
            assert(rest[0] == ws@[i as int]@);
            assert(rest.drop_first() =~= views(ws@).subrange(i + 1, ws@.len() as int));
        }
        let w = fuzzy_match_word(&ws[i], s);
        if w == i32::MIN {
            return i32::MIN;
        }
        total = saturating_add_i32(total, w);
        i = i + 1;
    }
    proof {
        assert(views(ws@).subrange(i as int, ws@.len() as int) =~= Seq::<Seq<char>>::empty());
    }
    total
}

/// Fuzzy score of the single word `pattern` against `s`.
fn fuzzy_match_word(pattern: &Vec<char>, s: &Vec<char>) -> (score: i32)
    ensures
        score == spec_fuzzy_match(pattern@, s@),
{
    if pattern.len() == 0 {
        return 0;
    }
    let slen = s.len();
    let plen = pattern.len();
    if slen < plen {
        return i32::MIN;
    }
    #[verifier::truncate]
    let unmatched = (slen - plen) as i32;
    let base_score = UNMATCHED_LETTER_PENALTY.wrapping_mul(unmatched);
    let first_match_only = slen > FIRST_MATCH_ONLY_ABOVE;
    proof {
        assert(pattern@.skip(0) =~= pattern@);
        assert(s@.skip(0) =~= s@);
    }
    fuzzy_match_recurse(pattern, 0, s, 0, None, base_score, first_match_only, true)
}

/// Score of matching `cur` after skipping `jump` candidate characters; see [`char_score`].
fn compute_score(jump: i32, first_char: bool, cur: char, prev: Option<char>) -> (score: i32)
    ensures
        score == char_score(jump, first_char, cur, prev),
{
    let mut score: i32 = 0;
    if !first_char && jump == 0 {
        score = score + ADJACENCY_BONUS;
    }
    match prev {
        Some(p) => {
            if !first_char || jump > 0 {
                if utf32_isupper(cur) && utf32_islower(p) {
                    score = score + CAMEL_BONUS;
                }
                if utf32_isalnum(cur) && !utf32_isalnum(p) {
                    score = score + SEPARATOR_BONUS;
                }
            }
        },
        None => {},
    }
    if first_char && jump == 0 {
        score = score + FIRST_LETTER_BONUS;
    }
    let leading = if first_char {
        let pen = LEADING_LETTER_PENALTY.wrapping_mul(jump);
        if pen > MAX_LEADING_LETTER_PENALTY {
            pen
        } else {
            MAX_LEADING_LETTER_PENALTY
        }
    } else {
        0
    };
    score.wrapping_add(leading)
}

/// Best score of matching `pattern[pi..]` within `haystack[hs..]`; see [`fuzzy_rec`].
fn fuzzy_match_recurse(
    pattern: &Vec<char>,
    pi: usize,
    haystack: &Vec<char>,
    hs: usize,
    prev_char: Option<char>,
    score: i32,
    first_match_only: bool,
    first_char: bool,
) -> (r: i32)
    requires
        pi <= pattern@.len(),
        hs <= haystack@.len(),
    ensures
        r == fuzzy_rec(
            pattern@.skip(pi as int),
            haystack@.skip(hs as int),
            prev_char,
            score,
            first_match_only,
            first_char,
        ),
    decreases pattern@.len() - pi,
{
    let ghost p = pattern@.skip(pi as int);
    let ghost h = haystack@.skip(hs as int);
    if pi == pattern.len() {
        return score;
    }
    let plen = pattern.len();
    let pf_lower = utf32_tolower(pattern[pi]);
    let mut best: i32 = i32::MIN;
    let mut prev = prev_char;
    let mut j: usize = hs;
    proof {
        assert(p[0] == pattern@[pi as int]);
    }
    while j < haystack.len()
        invariant
            plen == pattern@.len(),
            pi < pattern@.len(),
            hs <= j <= haystack@.len(),
            p == pattern@.skip(pi as int),
            h == haystack@.skip(hs as int),
            pf_lower == lower1(p[0]),
            prev == (if j == hs {
                prev_char
            } else {
                Some(haystack@[j - 1])
            }),
            fuzzy_scan(p, h, prev_char, first_match_only, first_char, 0, i32::MIN) == fuzzy_scan(
                p,
                h,
                prev_char,
                first_match_only,
                first_char,
                j - hs,
                best,
            ),
        decreases haystack@.len() - j,
    {
        let ch = haystack[j];
        let ghost k = j - hs;
        proof {
            assert(h[k] == ch);
            if k > 0 {
                assert(h[k - 1] == haystack@[j - 1]);
            }
        }
        if utf32_tolower(ch) == pf_lower {
            #[verifier::truncate]
            let jump = (j - hs) as i32;
            let char_score = compute_score(jump, first_char, ch, prev);
            proof {
                assert(pattern@.skip(pi + 1) =~= p.drop_first());
                assert(haystack@.skip(j + 1) =~= h.skip(k + 1));
            }
            let subscore = fuzzy_match_recurse(
                pattern,
                pi + 1,
                haystack,
                j + 1,
                Some(ch),
                char_score,
                first_match_only,
                false,
            );
            if subscore != i32::MIN && subscore > best {
                best = subscore;
            }
            if first_match_only {
                return if best == i32::MIN {
                    i32::MIN
                } else {
                    saturating_add_i32(score, best)
                };
            }
        }
        prev = Some(ch);
        j = j + 1;
    }
    if best == i32::MIN {
        i32::MIN
    } else {
        saturating_add_i32(score, best)
    }
}

// ── Laws ─────────────────────────────────────────────────────────────────────

/// Whether some word of `ws` has no case-insensitive occurrence in `s`.
pub open spec fn some_word_missing(s: Seq<char>, ws: Seq<Seq<char>>) -> bool {
    exists|i: int| 0 <= i < ws.len() && (#[trigger] spec_strcasestr(s, ws[i])) is None
}

/// Whether some word of `ws` does not start `s`, ignoring case.
pub open spec fn some_word_not_prefix(s: Seq<char>, ws: Seq<Seq<char>>) -> bool {
    exists|i: int| 0 <= i < ws.len() && (#[trigger] spec_strcasestr(s, ws[i])) != Some(0int)
}

/// A case-insensitive search reports a byte offset within the haystack.
proof fn lemma_strcasestr_bound(h: Seq<char>, n: Seq<char>)
    ensures
        spec_strcasestr(h, n) matches Some(o) ==> 0 <= o <= utf8_len(h),
{
    if n.len() > 0 {
        if let Some(k) = first_occurrence(casefold(h), casefold(n)) {
            lemma_fold_owner_bound(h, k, 0);
            crate::text::lemma_utf8_len_take(h, fold_owner_from(h, k, 0));
        }
    }
}

proof fn lemma_normal_score_min(s: Seq<char>, ws: Seq<Seq<char>>, acc: i32)
    requires
        acc <= 0,
        acc >= i32::MIN + 1 + ws.len() * utf8_len(s),
    ensures
        (normal_score(s, ws, acc) == i32::MIN) == some_word_missing(s, ws),
    decreases ws.len(),
{
    if ws.len() > 0 {
        let rest = ws.drop_first();
        assert forall|i: int| 0 <= i < rest.len() implies #[trigger] rest[i] == ws[i + 1] by {}
        lemma_strcasestr_bound(s, ws[0]);
        match spec_strcasestr(s, ws[0]) {
            Some(o) => {
                assert(ws.len() * utf8_len(s) == utf8_len(s) + rest.len() * utf8_len(s)) by (nonlinear_arith)
                    requires
                        ws.len() == rest.len() + 1,
                ;
                assert(rest.len() * utf8_len(s) >= 0) by (nonlinear_arith);
                assert(o as i32 == o);
                let next = sat_sub(acc, o as i32);
                assert(next == acc - o);
                lemma_normal_score_min(s, rest, next);
                if some_word_missing(s, ws) {
                    let i = choose|i: int| 0 <= i < ws.len() && (#[trigger] spec_strcasestr(s, ws[i])) is None;
                    assert(i > 0);
                    assert(spec_strcasestr(s, rest[i - 1]) is None);
                }
                if some_word_missing(s, rest) {
                    let i = choose|i: int| 0 <= i < rest.len() && (#[trigger] spec_strcasestr(s, rest[i])) is None;
                    assert(spec_strcasestr(s, ws[i + 1]) is None);
                }
            },
            None => {
                assert(spec_strcasestr(s, ws[0]) is None);
            },
        }
    }
}

/// Under the normal algorithm a candidate fails (`i32::MIN`) exactly when
/// some query word does not occur in it, ignoring case, for candidates and
/// queries small enough that the score cannot reach `i32::MIN` by adding up.
pub proof fn law_normal_fails_iff_word_missing(s: Seq<char>, ws: Seq<Seq<char>>)
    requires
        ws.len() * utf8_len(s) < i32::MAX,
    ensures
        (normal_score(s, ws, 0) == i32::MIN) == some_word_missing(s, ws),
{
    lemma_normal_score_min(s, ws, 0);
}

proof fn lemma_prefix_score_min(s: Seq<char>, ws: Seq<Seq<char>>, acc: i32)
    requires
        acc >= i32::MIN + 1 + ws.len() * s.len(),
        s.len() <= i32::MAX,
        forall|i: int| 0 <= i < ws.len() ==> (#[trigger] ws[i]).len() <= i32::MAX,
    ensures
        (prefix_score(s, ws, acc) == i32::MIN) == some_word_not_prefix(s, ws),
    decreases ws.len(),
{
    if ws.len() > 0 {
        let rest = ws.drop_first();
        assert forall|i: int| 0 <= i < rest.len() implies #[trigger] rest[i] == ws[i + 1] by {}
        assert(ws[0].len() <= i32::MAX);
        if spec_strcasestr(s, ws[0]) == Some(0int) {
            assert(ws.len() * s.len() == s.len() + rest.len() * s.len()) by (nonlinear_arith)
                requires
                    ws.len() == rest.len() + 1,
            ;
            assert(rest.len() * s.len() >= 0) by (nonlinear_arith);
            let pen = vstd::wrapping::i32_specs::wrapping_sub(s.len() as i32, ws[0].len() as i32);
            assert(pen == s.len() - ws[0].len());
            let next = sat_sub(acc, pen);
            assert(next >= acc - s.len());
            lemma_prefix_score_min(s, rest, next);
            if some_word_not_prefix(s, ws) {
                let i = choose|i: int| 0 <= i < ws.len() && (#[trigger] spec_strcasestr(s, ws[i])) != Some(0int);
                assert(i > 0);
                assert(spec_strcasestr(s, rest[i - 1]) != Some(0int));
            }
            if some_word_not_prefix(s, rest) {
                let i = choose|i: int| 0 <= i < rest.len() && (#[trigger] spec_strcasestr(s, rest[i])) != Some(0int);
                assert(spec_strcasestr(s, ws[i + 1]) != Some(0int));
            }
        } else {
            assert(spec_strcasestr(s, ws[0]) != Some(0int));
        }
    }
}

/// Under the prefix algorithm a candidate fails (`i32::MIN`) exactly when
/// some query word does not start it, ignoring case, for candidates and
/// queries small enough that the score cannot reach `i32::MIN` by adding up.
pub proof fn law_prefix_fails_iff_word_not_prefix(s: Seq<char>, ws: Seq<Seq<char>>)
    requires
        ws.len() * (s.len() + 1) < i32::MAX,
        forall|i: int| 0 <= i < ws.len() ==> (#[trigger] ws[i]).len() <= i32::MAX,
    ensures
        (prefix_score(s, ws, 0) == i32::MIN) == some_word_not_prefix(s, ws),
{
    if ws.len() > 0 {
        assert(ws.len() * (s.len() + 1) == ws.len() * s.len() + ws.len()) by (nonlinear_arith);
        assert(s.len() <= i32::MAX) by (nonlinear_arith)
            requires
                ws.len() * (s.len() + 1) < i32::MAX,
                ws.len() >= 1,
        ;
        lemma_prefix_score_min(s, ws, 0);
    }
}

/// An empty word matches every candidate with score 0, and a word longer than
/// the candidate matches none.
pub proof fn law_fuzzy_trivial_cases(p: Seq<char>, s: Seq<char>)
    ensures
        p.len() == 0 ==> spec_fuzzy_match(p, s) == 0,
        s.len() < p.len() ==> spec_fuzzy_match(p, s) == i32::MIN,
{
}

/// Whether the characters of `p` appear in `h` in order, compared by the
/// first character of their lowercase mapping.
pub open spec fn in_order(p: Seq<char>, h: Seq<char>) -> bool
    decreases h.len(),
{
    if p.len() == 0 {
        true
    } else if h.len() == 0 {
        false
    } else if lower1(h[0]) == lower1(p[0]) && in_order(p.drop_first(), h.drop_first()) {
        true
    } else {
        in_order(p, h.drop_first())
    }
}

proof fn lemma_rec_in_order(p: Seq<char>, h: Seq<char>, prev: Option<char>, score: i32, first_only: bool, first: bool)
    ensures
        fuzzy_rec(p, h, prev, score, first_only, first) != i32::MIN ==> in_order(p, h),
    decreases p.len(), h.len() + 1,
{
    if p.len() > 0 {
        lemma_scan_in_order(p, h, prev, first_only, first, 0, i32::MIN);
        assert(h.skip(0) =~= h);
    }
}

proof fn lemma_scan_in_order(
    p: Seq<char>,
    h: Seq<char>,
    prev: Option<char>,
    first_only: bool,
    first: bool,
    j: int,
    best: i32,
)
    requires
        0 <= j,
    ensures
        fuzzy_scan(p, h, prev, first_only, first, j, best) != i32::MIN ==> best != i32::MIN || (j <= h.len()
            && in_order(p, h.skip(j))),
    decreases p.len(), h.len() - j,
{
    if j < h.len() && p.len() > 0 {
        let ch = h[j];
        let rest = h.skip(j);
        assert(rest[0] == ch);
        assert(rest.drop_first() =~= h.skip(j + 1));
        if lower1(ch) == lower1(p[0]) {
            let before = if j == 0 {
                prev
            } else {
                Some(h[j - 1])
            };
            let sc = char_score(j as i32, first, ch, before);
            lemma_rec_in_order(p.drop_first(), h.skip(j + 1), Some(ch), sc, first_only, false);
            let sub = fuzzy_rec(p.drop_first(), h.skip(j + 1), Some(ch), sc, first_only, false);
            let nb = if sub != i32::MIN && sub > best {
                sub
            } else {
                best
            };
            if !first_only {
                lemma_scan_in_order(p, h, prev, first_only, first, j + 1, nb);
            }
        } else {
            lemma_scan_in_order(p, h, prev, first_only, first, j + 1, best);
        }
    }
}

/// A word gets a fuzzy score other than `i32::MIN` only when its characters
/// appear in the candidate in order, ignoring case.
pub proof fn law_fuzzy_match_needs_order(p: Seq<char>, s: Seq<char>)
    ensures
        spec_fuzzy_match(p, s) != i32::MIN ==> in_order(p, s),
{
    if p.len() > 0 && s.len() >= p.len() {
        lemma_rec_in_order(
            p,
            s,
            None,
            vstd::wrapping::i32_specs::wrapping_mul(UNMATCHED_LETTER_PENALTY, (s.len() - p.len()) as i32),
            s.len() > FIRST_MATCH_ONLY_ABOVE,
            true,
        );
    }
}

/// Under the fuzzy algorithm a candidate matches only when the characters
/// of every query word appear in it in order, ignoring case.
pub proof fn law_fuzzy_words_need_order(s: Seq<char>, ws: Seq<Seq<char>>, acc: i32)
    ensures
        fuzzy_score(s, ws, acc) != i32::MIN ==> forall|i: int| 0 <= i < ws.len() ==> in_order(#[trigger] ws[i], s),
    decreases ws.len(),
{
    if ws.len() > 0 {
        let w = spec_fuzzy_match(ws[0], s);
        law_fuzzy_match_needs_order(ws[0], s);
        if w != i32::MIN {
            let rest = ws.drop_first();
            law_fuzzy_words_need_order(s, rest, sat_add(acc, w));
            if fuzzy_score(s, ws, acc) != i32::MIN {
                assert forall|i: int| 0 <= i < ws.len() implies in_order(#[trigger] ws[i], s) by {
                    if i > 0 {
                        assert(ws[i] == rest[i - 1]);
                    }
                }
            }
        }
    }
}

/// Dropping the first character of a word keeps it in order.
proof fn lemma_in_order_drop_pattern(p: Seq<char>, h: Seq<char>)
    requires
        p.len() > 0,
        in_order(p, h),
    ensures
        in_order(p.drop_first(), h),
    decreases h.len(),
{
    if h.len() > 0 {
        let q = p.drop_first();
        if lower1(h[0]) == lower1(p[0]) && in_order(q, h.drop_first()) {
        } else {
            lemma_in_order_drop_pattern(p, h.drop_first());
        }
        assert(in_order(q, h.drop_first()));
        if q.len() > 0 {
            assert(in_order(q, h));
        }
    }
}

/// Matching the first character at the earliest place it occurs never loses
/// a match that exists.
proof fn lemma_in_order_greedy(p: Seq<char>, h: Seq<char>)
    requires
        p.len() > 0,
        h.len() > 0,
        in_order(p, h),
        lower1(h[0]) == lower1(p[0]),
    ensures
        in_order(p.drop_first(), h.drop_first()),
{
    if !in_order(p.drop_first(), h.drop_first()) {
        lemma_in_order_drop_pattern(p, h.drop_first());
    }
}

/// A word in order is no longer than the text it occurs in.
proof fn lemma_in_order_len(p: Seq<char>, h: Seq<char>)
    requires
        in_order(p, h),
    ensures
        p.len() <= h.len(),
    decreases h.len(),
{
    if p.len() > 0 && h.len() > 0 {
        if lower1(h[0]) == lower1(p[0]) && in_order(p.drop_first(), h.drop_first()) {
            lemma_in_order_len(p.drop_first(), h.drop_first());
        } else {
            lemma_in_order_len(p, h.drop_first());
        }
    }
}

/// Bounds of a single character's score: never negative after the first
/// character, and at least the largest leading penalty on the first one.
proof fn lemma_char_score_bounds(j: int, first: bool, cur: char, prev: Option<char>)
    requires
        0 <= j < fuzzy_length_limit(),
    ensures
        first ==> char_score(j as i32, first, cur, prev) >= MAX_LEADING_LETTER_PENALTY,
        !first ==> char_score(j as i32, first, cur, prev) >= 0,
{
    let jump = j as i32;
    assert(jump as int == j);
    if first {
        let x: int = LEADING_LETTER_PENALTY as int * jump as int;
        assert(-2147483648 <= x <= 0);
        let m: int = 0x1_0000_0000;
        if x < 0 {
            assert((x + m) % m == x + m) by {
                vstd::arithmetic::div_mod::lemma_small_mod((x + m) as nat, m as nat);
            }
            assert(x % m == (x + m) % m) by {
                vstd::arithmetic::div_mod::lemma_mod_add_multiples_vanish(x, m);
            }
        } else {
            assert(x == 0);
        }
        assert(vstd::wrapping::i32_specs::wrapping_mul(LEADING_LETTER_PENALTY, jump) == x);
    }
}

/// Once some match has been scored, scanning further never loses it.
proof fn lemma_scan_keeps_best(
    p: Seq<char>,
    h: Seq<char>,
    prev: Option<char>,
    first_only: bool,
    first: bool,
    j: int,
    best: i32,
)
    requires
        best != i32::MIN,
    ensures
        fuzzy_scan(p, h, prev, first_only, first, j, best) >= best,
    decreases h.len() - j,
{
    if !(j < 0 || j >= h.len() || p.len() == 0) {
        let ch = h[j];
        let before = if j == 0 {
            prev
        } else {
            Some(h[j - 1])
        };
        if lower1(ch) == lower1(p[0]) {
            let sub = fuzzy_rec(
                p.drop_first(),
                h.skip(j + 1),
                Some(ch),
                char_score(j as i32, first, ch, before),
                first_only,
                false,
            );
            let nb = if sub != i32::MIN && sub > best {
                sub
            } else {
                best
            };
            if !first_only {
                lemma_scan_keeps_best(p, h, prev, first_only, first, j + 1, nb);
            }
        } else {
            lemma_scan_keeps_best(p, h, prev, first_only, first, j + 1, best);
        }
    }
}

/// A later character of a word that occurs in order scores at least what led
/// to it.
proof fn lemma_rec_finds_order(
    p: Seq<char>,
    h: Seq<char>,
    prev: Option<char>,
    score: i32,
    first_only: bool,
)
    requires
        in_order(p, h),
        score != i32::MIN,
        h.len() <= fuzzy_length_limit(),
    ensures
        fuzzy_rec(p, h, prev, score, first_only, false) >= score,
    decreases p.len(), h.len() + 1,
{
    if p.len() > 0 {
        assert(h.skip(0) =~= h);
        lemma_scan_finds_order(p, h, prev, first_only, false, 0, i32::MIN);
    }
}

/// Scanning from position `j` for a word whose characters occur in order in
/// the rest of the text finds a match worth at least the least character score.
proof fn lemma_scan_finds_order(
    p: Seq<char>,
    h: Seq<char>,
    prev: Option<char>,
    first_only: bool,
    first: bool,
    j: int,
    best: i32,
)
    requires
        0 <= j <= h.len(),
        h.len() <= fuzzy_length_limit(),
        p.len() > 0,
        in_order(p, h.skip(j)),
        best == i32::MIN || best >= MAX_LEADING_LETTER_PENALTY,
        !first ==> (best == i32::MIN || best >= 0),
    ensures
        fuzzy_scan(p, h, prev, first_only, first, j, best) >= (if first {
            MAX_LEADING_LETTER_PENALTY
        } else {
            0i32
        }),
    decreases p.len(), h.len() - j,
{
    lemma_in_order_len(p, h.skip(j));
    let ch = h[j];
    let rest = h.skip(j);
    assert(rest[0] == ch);
    assert(rest.drop_first() =~= h.skip(j + 1));
    let before = if j == 0 {
        prev
    } else {
        Some(h[j - 1])
    };
    if lower1(ch) == lower1(p[0]) {
        let sc = char_score(j as i32, first, ch, before);
        lemma_char_score_bounds(j, first, ch, before);
        lemma_in_order_greedy(p, rest);
        assert(h.skip(j + 1).len() <= fuzzy_length_limit());
        lemma_rec_finds_order(p.drop_first(), h.skip(j + 1), Some(ch), sc, first_only);
        let sub = fuzzy_rec(p.drop_first(), h.skip(j + 1), Some(ch), sc, first_only, false);
        let nb = if sub != i32::MIN && sub > best {
            sub
        } else {
            best
        };
        if !first_only {
            lemma_scan_keeps_best(p, h, prev, first_only, first, j + 1, nb);
        }
    } else {
        assert(in_order(p, h.skip(j + 1)));
        lemma_scan_finds_order(p, h, prev, first_only, first, j + 1, best);
    }
}

/// A word whose characters appear in the candidate in order, ignoring case,
/// always gets a fuzzy score other than `i32::MIN` (for candidates short
/// enough that the leading-letter penalty cannot wrap around).
pub proof fn law_fuzzy_match_finds_order(p: Seq<char>, s: Seq<char>)
    requires
        s.len() <= fuzzy_length_limit(),
    ensures
        in_order(p, s) ==> spec_fuzzy_match(p, s) != i32::MIN,
        in_order(p, s) ==> spec_fuzzy_match(p, s) >= MAX_LEADING_LETTER_PENALTY - s.len(),
{
    if in_order(p, s) && p.len() > 0 {
        lemma_in_order_len(p, s);
        let base = vstd::wrapping::i32_specs::wrapping_mul(UNMATCHED_LETTER_PENALTY, (s.len() - p.len()) as i32);
        let x: int = UNMATCHED_LETTER_PENALTY as int * (s.len() - p.len());
        let m: int = 0x1_0000_0000;
        if x < 0 {
            assert((x + m) % m == x + m) by {
                vstd::arithmetic::div_mod::lemma_small_mod((x + m) as nat, m as nat);
            }
            assert(x % m == (x + m) % m) by {
                vstd::arithmetic::div_mod::lemma_mod_add_multiples_vanish(x, m);
            }
        }
        assert(base == x);
        assert(s.skip(0) =~= s);
        lemma_scan_finds_order(p, s, None, s.len() > FIRST_MATCH_ONLY_ABOVE, true, 0, i32::MIN);
    }
}

/// Under the fuzzy algorithm a candidate in which every query word occurs in
/// order, ignoring case, is always a match, as long as the penalties summed
/// over the words cannot reach `i32::MIN`.
pub proof fn law_fuzzy_words_find_order(s: Seq<char>, ws: Seq<Seq<char>>, acc: i32)
    requires
        s.len() <= fuzzy_length_limit(),
        acc - ws.len() * (s.len() - MAX_LEADING_LETTER_PENALTY) > i32::MIN,
        forall|i: int| 0 <= i < ws.len() ==> in_order(#[trigger] ws[i], s),
    ensures
        fuzzy_score(s, ws, acc) != i32::MIN,
    decreases ws.len(),
{
    if ws.len() > 0 {
        let k: int = s.len() - MAX_LEADING_LETTER_PENALTY;
        assert(in_order(ws[0], s));
        law_fuzzy_match_finds_order(ws[0], s);
        let w = spec_fuzzy_match(ws[0], s);
        let rest = ws.drop_first();
        assert(ws.len() * k == k + rest.len() * k) by (nonlinear_arith)
            requires
                rest.len() == ws.len() - 1,
        ;
        assert(rest.len() * k >= 0) by (nonlinear_arith)
            requires
                k >= 0,
        ;
        assert(w >= -k);
        let acc2 = sat_add(acc, w);
        if acc + w <= i32::MAX {
            assert(acc2 >= acc + w);
        } else {
            assert(acc2 == i32::MAX);
        }
        assert(acc2 - rest.len() * k > i32::MIN);
        assert forall|i: int| 0 <= i < rest.len() implies in_order(#[trigger] rest[i], s) by {
            assert(rest[i] == ws[i + 1]);
        }
        law_fuzzy_words_find_order(s, rest, acc2);
    }
}

/// Every scored candidate carries its score, and that score is a match.
pub open spec fn scored_match(algorithm: MatchingAlgorithm, query: Seq<char>) -> spec_fn((i32, Seq<char>)) -> bool {
    |p: (i32, Seq<char>)| p.0 == spec_match_words(algorithm, query, p.1) && p.0 > i32::MIN
}

proof fn lemma_match_pairs_scored(entries: Seq<Seq<char>>, algorithm: MatchingAlgorithm, query: Seq<char>)
    ensures
        forall|i: int|
            0 <= i < match_pairs(entries, algorithm, query).len() ==> scored_match(algorithm, query)(
                #[trigger] match_pairs(entries, algorithm, query)[i],
            ),
    decreases entries.len(),
{
    if entries.len() > 0 {
        let prev = match_pairs(entries.drop_last(), algorithm, query);
        lemma_match_pairs_scored(entries.drop_last(), algorithm, query);
        let ps = match_pairs(entries, algorithm, query);
        assert forall|i: int| 0 <= i < ps.len() implies scored_match(algorithm, query)(#[trigger] ps[i]) by {
            if i < prev.len() {
                assert(ps[i] == prev[i]);
            }
        }
    }
}

/// For a non-empty query the shown results are matching candidates with
/// their scores, highest score first.
pub proof fn law_filter_results_sorted(entries: Seq<Seq<char>>, algorithm: MatchingAlgorithm, query: Seq<char>)
    ensures
        ({
            let r = stable_sort(match_pairs(entries, algorithm, query), score_first());
            &&& is_sorted_by(r, score_first())
            &&& r.len() == match_pairs(entries, algorithm, query).len()
            &&& forall|i: int| 0 <= i < r.len() ==> scored_match(algorithm, query)(#[trigger] r[i])
        }),
{
    let ps = match_pairs(entries, algorithm, query);
    assert(total_preorder(score_first()));
    lemma_stable_sort_sorted(ps, score_first());
    lemma_match_pairs_scored(entries, algorithm, query);
    lemma_stable_sort_all(ps, score_first(), scored_match(algorithm, query));
}

/// Whether the jumps `ds` match the word `p` in `h`: each jump skips that
/// many characters of what is left and lands on a character equal to the
/// next character of `p`, ignoring case.
pub open spec fn valid_jumps(p: Seq<char>, h: Seq<char>, ds: Seq<int>) -> bool
    decreases p.len(),
{
    if p.len() == 0 {
        ds.len() == 0
    } else {
        &&& ds.len() == p.len()
        &&& 0 <= ds[0] < h.len()
        &&& lower1(h[ds[0]]) == lower1(p[0])
        &&& valid_jumps(p.drop_first(), h.skip(ds[0] + 1), ds.drop_first())
    }
}

/// The score that matching `p` in `h` by the jumps `ds` earns, scored as the
/// fuzzy algorithm scores one way of matching.
pub open spec fn jumps_score(p: Seq<char>, h: Seq<char>, prev: Option<char>, score: i32, first: bool, ds: Seq<int>) -> i32
    decreases p.len(),
{
    if p.len() == 0 || ds.len() == 0 {
        score
    } else {
        let j = ds[0];
        let ch = h[j];
        let before = if j == 0 {
            prev
        } else {
            Some(h[j - 1])
        };
        sat_add(
            score,
            jumps_score(p.drop_first(), h.skip(j + 1), Some(ch), char_score(j as i32, first, ch, before), false, ds.drop_first()),
        )
    }
}

proof fn lemma_jumps_lower(p: Seq<char>, h: Seq<char>, prev: Option<char>, score: i32, ds: Seq<int>)
    requires
        valid_jumps(p, h, ds),
        h.len() < fuzzy_length_limit(),
    ensures
        jumps_score(p, h, prev, score, false, ds) >= score,
    decreases p.len(),
{
    if p.len() > 0 {
        let j = ds[0];
        let ch = h[j];
        let before = if j == 0 {
            prev
        } else {
            Some(h[j - 1])
        };
        lemma_char_score_bounds(j, false, ch, before);
        let cs = char_score(j as i32, false, ch, before);
        lemma_jumps_lower(p.drop_first(), h.skip(j + 1), Some(ch), cs, ds.drop_first());
    }
}

/// Scanning from `k` reaches every matching position `j` at or after it.
proof fn lemma_scan_covers(
    p: Seq<char>,
    h: Seq<char>,
    prev: Option<char>,
    first: bool,
    k: int,
    best: i32,
    j: int,
)
    requires
        0 <= k <= j < h.len(),
        p.len() > 0,
        lower1(h[j]) == lower1(p[0]),
        ({
            let before = if j == 0 {
                prev
            } else {
                Some(h[j - 1])
            };
            fuzzy_rec(p.drop_first(), h.skip(j + 1), Some(h[j]), char_score(j as i32, first, h[j], before), false, false)
                != i32::MIN
        }),
    ensures
        ({
            let before = if j == 0 {
                prev
            } else {
                Some(h[j - 1])
            };
            fuzzy_scan(p, h, prev, false, first, k, best) >= fuzzy_rec(
                p.drop_first(),
                h.skip(j + 1),
                Some(h[j]),
                char_score(j as i32, first, h[j], before),
                false,
                false,
            )
        }),
    decreases h.len() - k,
{
    let ch = h[k];
    let before = if k == 0 {
        prev
    } else {
        Some(h[k - 1])
    };
    if lower1(ch) == lower1(p[0]) {
        let sub = fuzzy_rec(p.drop_first(), h.skip(k + 1), Some(ch), char_score(k as i32, first, ch, before), false, false);
        let nb = if sub != i32::MIN && sub > best {
            sub
        } else {
            best
        };
        if k == j {
            assert(nb != i32::MIN);
            lemma_scan_keeps_best(p, h, prev, false, first, k + 1, nb);
        } else {
            lemma_scan_covers(p, h, prev, first, k + 1, nb, j);
        }
    } else {
        lemma_scan_covers(p, h, prev, first, k + 1, best, j);
    }
}

proof fn lemma_rec_best(p: Seq<char>, h: Seq<char>, prev: Option<char>, score: i32, first: bool, ds: Seq<int>)
    requires
        valid_jumps(p, h, ds),
        h.len() < fuzzy_length_limit(),
        score != i32::MIN,
    ensures
        fuzzy_rec(p, h, prev, score, false, first) >= jumps_score(p, h, prev, score, first, ds),
    decreases p.len(),
{
    if p.len() > 0 {
        let j = ds[0];
        let ch = h[j];
        let before = if j == 0 {
            prev
        } else {
            Some(h[j - 1])
        };
        let cs = char_score(j as i32, first, ch, before);
        lemma_char_score_bounds(j, first, ch, before);
        let rest = h.skip(j + 1);
        lemma_rec_best(p.drop_first(), rest, Some(ch), cs, false, ds.drop_first());
        lemma_jumps_lower(p.drop_first(), rest, Some(ch), cs, ds.drop_first());
        let sub = fuzzy_rec(p.drop_first(), rest, Some(ch), cs, false, false);
        let js = jumps_score(p.drop_first(), rest, Some(ch), cs, false, ds.drop_first());
        assert(js >= MAX_LEADING_LETTER_PENALTY);
        assert(sub != i32::MIN);
        lemma_scan_covers(p, h, prev, first, 0, i32::MIN, j);
        let best = fuzzy_scan(p, h, prev, false, first, 0, i32::MIN);
        assert(best >= sub);
    }
}

/// For candidates of at most 100 characters, the fuzzy score of a word is at
/// least the score of every way of matching its characters in order: the
/// algorithm picks the best one.
pub proof fn law_fuzzy_match_is_best(p: Seq<char>, s: Seq<char>, ds: Seq<int>)
    requires
        s.len() <= FIRST_MATCH_ONLY_ABOVE,
        p.len() > 0,
        valid_jumps(p, s, ds),
    ensures
        spec_fuzzy_match(p, s) >= jumps_score(
            p,
            s,
            None,
            vstd::wrapping::i32_specs::wrapping_mul(UNMATCHED_LETTER_PENALTY, (s.len() - p.len()) as i32),
            true,
            ds,
        ),
{
    lemma_valid_jumps_len(p, s, ds);
    let x: int = UNMATCHED_LETTER_PENALTY as int * (s.len() - p.len());
    let m: int = 0x1_0000_0000;
    if x < 0 {
        assert((x + m) % m == x + m) by {
            vstd::arithmetic::div_mod::lemma_small_mod((x + m) as nat, m as nat);
        }
        assert(x % m == (x + m) % m) by {
            vstd::arithmetic::div_mod::lemma_mod_add_multiples_vanish(x, m);
        }
    }
    lemma_rec_best(
        p,
        s,
        None,
        vstd::wrapping::i32_specs::wrapping_mul(UNMATCHED_LETTER_PENALTY, (s.len() - p.len()) as i32),
        true,
        ds,
    );
}

/// Matching jumps need at least as many characters as the word has.
proof fn lemma_valid_jumps_len(p: Seq<char>, h: Seq<char>, ds: Seq<int>)
    requires
        valid_jumps(p, h, ds),
    ensures
        p.len() <= h.len(),
    decreases p.len(),
{
    if p.len() > 0 {
        lemma_valid_jumps_len(p.drop_first(), h.skip(ds[0] + 1), ds.drop_first());
    }
}

/// The score of matching the first character of `p` at position `j` of `h`.
pub open spec fn sub_at(p: Seq<char>, h: Seq<char>, prev: Option<char>, first: bool, j: int) -> i32 {
    let before = if j == 0 {
        prev
    } else {
        Some(h[j - 1])
    };
    fuzzy_rec(p.drop_first(), h.skip(j + 1), Some(h[j]), char_score(j as i32, first, h[j], before), false, false)
}

proof fn lemma_scan_attained(p: Seq<char>, h: Seq<char>, prev: Option<char>, first: bool, k: int, best: i32)
    requires
        0 <= k,
        p.len() > 0,
    ensures
        ({
            let r = fuzzy_scan(p, h, prev, false, first, k, best);
            r == best || (r != i32::MIN && exists|j: int|
                k <= j < h.len() && lower1(h[j]) == lower1(p[0]) && #[trigger] sub_at(p, h, prev, first, j) == r)
        }),
    decreases h.len() - k,
{
    if k < h.len() {
        let ch = h[k];
        if lower1(ch) == lower1(p[0]) {
            let sub = sub_at(p, h, prev, first, k);
            let nb = if sub != i32::MIN && sub > best {
                sub
            } else {
                best
            };
            lemma_scan_attained(p, h, prev, first, k + 1, nb);
        } else {
            lemma_scan_attained(p, h, prev, first, k + 1, best);
        }
    }
}

proof fn lemma_rec_attained(p: Seq<char>, h: Seq<char>, prev: Option<char>, score: i32, first: bool) -> (ds: Seq<int>)
    requires
        fuzzy_rec(p, h, prev, score, false, first) != i32::MIN,
    ensures
        valid_jumps(p, h, ds),
        jumps_score(p, h, prev, score, first, ds) == fuzzy_rec(p, h, prev, score, false, first),
    decreases p.len(),
{
    if p.len() == 0 {
        Seq::empty()
    } else {
        lemma_scan_attained(p, h, prev, first, 0, i32::MIN);
        let best = fuzzy_scan(p, h, prev, false, first, 0, i32::MIN);
        let j = choose|j: int| 0 <= j < h.len() && lower1(h[j]) == lower1(p[0]) && #[trigger] sub_at(p, h, prev, first, j) == best;
        let before = if j == 0 {
            prev
        } else {
            Some(h[j - 1])
        };
        let cs = char_score(j as i32, first, h[j], before);
        let rest_ds = lemma_rec_attained(p.drop_first(), h.skip(j + 1), Some(h[j]), cs, false);
        let ds = seq![j] + rest_ds;
        assert(ds.drop_first() =~= rest_ds);
        assert(ds[0] == j);
        ds
    }
}

/// For candidates of at most 100 characters, a word that matches gets the
/// score of one of the ways of matching its characters in order.
pub proof fn law_fuzzy_match_is_attained(p: Seq<char>, s: Seq<char>)
    requires
        s.len() <= FIRST_MATCH_ONLY_ABOVE,
        p.len() > 0,
        spec_fuzzy_match(p, s) != i32::MIN,
    ensures
        exists|ds: Seq<int>|
            valid_jumps(p, s, ds) && #[trigger] jumps_score(
                p,
                s,
                None,
                vstd::wrapping::i32_specs::wrapping_mul(UNMATCHED_LETTER_PENALTY, (s.len() - p.len()) as i32),
                true,
                ds,
            ) == spec_fuzzy_match(p, s),
{
    let base = vstd::wrapping::i32_specs::wrapping_mul(UNMATCHED_LETTER_PENALTY, (s.len() - p.len()) as i32);
    let ds = lemma_rec_attained(p, s, None, base, true);
    assert(jumps_score(p, s, None, base, true, ds) == spec_fuzzy_match(p, s));
}

/// A product that fits in an `i32` is not changed by wrapping.
proof fn lemma_wrapping_mul_fits(a: i32, b: i32)
    requires
        i32::MIN <= a * b <= i32::MAX,
    ensures
        vstd::wrapping::i32_specs::wrapping_mul(a, b) == a * b,
{
    let x: int = a * b;
    let m: int = 0x1_0000_0000;
    if x < 0 {
        assert((x + m) % m == x + m) by {
            vstd::arithmetic::div_mod::lemma_small_mod((x + m) as nat, m as nat);
        }
        assert(x % m == (x + m) % m) by {
            vstd::arithmetic::div_mod::lemma_mod_add_multiples_vanish(x, m);
        }
    } else {
        assert(x % m == x) by {
            vstd::arithmetic::div_mod::lemma_small_mod(x as nat, m as nat);
        }
    }
}

/// Scanning from `k` where no character matches the first of `p` keeps `best`.
proof fn lemma_scan_no_match(
    p: Seq<char>,
    h: Seq<char>,
    prev: Option<char>,
    first_only: bool,
    first: bool,
    k: int,
    best: i32,
)
    requires
        0 <= k,
        p.len() > 0,
        forall|m: int| k <= m < h.len() ==> lower1(#[trigger] h[m]) != lower1(p[0]),
    ensures
        fuzzy_scan(p, h, prev, first_only, first, k, best) == best,
    decreases h.len() - k,
{
    if k < h.len() {
        lemma_scan_no_match(p, h, prev, first_only, first, k + 1, best);
    }
}

/// A one-character word that matches at the single position `j` scores what
/// its match at `j` earns.
proof fn lemma_scan_single(c: char, h: Seq<char>, prev: Option<char>, first_only: bool, first: bool, k: int, j: int)
    requires
        0 <= k <= j < h.len(),
        lower1(h[j]) == lower1(c),
        forall|m: int| k <= m < h.len() && m != j ==> lower1(#[trigger] h[m]) != lower1(c),
        char_score(j as i32, first, h[j], if j == 0 { prev } else { Some(h[j - 1]) }) != i32::MIN,
    ensures
        fuzzy_scan(seq![c], h, prev, first_only, first, k, i32::MIN) == char_score(
            j as i32,
            first,
            h[j],
            if j == 0 {
                prev
            } else {
                Some(h[j - 1])
            },
        ),
    decreases j - k,
{
    let p = seq![c];
    assert(p[0] == c);
    assert(p.drop_first() =~= Seq::<char>::empty());
    if k < j {
        assert(lower1(h[k]) != lower1(c));
        lemma_scan_single(c, h, prev, first_only, first, k + 1, j);
    } else {
        let cs = char_score(j as i32, first, h[j], if j == 0 { prev } else { Some(h[j - 1]) });
        assert(fuzzy_rec(p.drop_first(), h.skip(j + 1), Some(h[j]), cs, first_only, false) == cs);
        if !first_only {
            lemma_scan_no_match(p, h, prev, first_only, first, j + 1, cs);
        }
    }
}

/// The fuzzy score of a one-character word `c` that occurs once in a
/// candidate, at position `j`: minus one for each other character of the
/// candidate; at the very start, a bonus of 15; after `j` skipped
/// characters, a penalty of 5 for each, at most 15; and after the character
/// before it, 30 when `c` is uppercase and that character lowercase, and 30
/// when `c` is a letter or digit and that character is not.
pub proof fn law_fuzzy_single_char_score(c: char, h: Seq<char>, j: int)
    requires
        0 <= j < h.len(),
        h.len() <= fuzzy_length_limit(),
        h[j] == c,
        forall|m: int| 0 <= m < h.len() && m != j ==> lower1(#[trigger] h[m]) != lower1(c),
    ensures
        spec_fuzzy_match(seq![c], h) == -(h.len() - 1) + (if j == 0 {
            15int
        } else if j >= 3 {
            -15int
        } else {
            -5 * j
        }) + (if j > 0 && spec_is_uppercase(c) && spec_is_lowercase(h[j - 1]) {
            30int
        } else {
            0int
        }) + (if j > 0 && spec_is_alphanumeric(c) && !spec_is_alphanumeric(h[j - 1]) {
            30int
        } else {
            0int
        }),
{
    let jump = j as i32;
    assert(jump as int == j);
    lemma_wrapping_mul_fits(LEADING_LETTER_PENALTY, jump);
    let base_n = (h.len() - 1) as i32;
    assert(base_n as int == h.len() - 1);
    lemma_wrapping_mul_fits(UNMATCHED_LETTER_PENALTY, base_n);
    lemma_scan_single(c, h, None, h.len() > FIRST_MATCH_ONLY_ABOVE, true, 0, j);
    assert(seq![c][0] == c);
}

/// A matched word character earns the separator bonus, 30, when the
/// character before it is no letter or digit: a one-character word that
/// occurs once scores exactly 30 more after such a character than after a
/// letter or digit at the same place.
pub proof fn law_fuzzy_separator_bonus(x: Seq<char>, y: Seq<char>, c: char, sep: char, other: char)
    requires
        spec_is_alphanumeric(c),
        !spec_is_uppercase(c),
        !spec_is_alphanumeric(sep),
        spec_is_alphanumeric(other),
        lower1(sep) != lower1(c),
        lower1(other) != lower1(c),
        forall|k: int| 0 <= k < x.len() ==> lower1(#[trigger] x[k]) != lower1(c),
        forall|k: int| 0 <= k < y.len() ==> lower1(#[trigger] y[k]) != lower1(c),
        x.len() + y.len() + 2 <= fuzzy_length_limit(),
    ensures
        spec_fuzzy_match(seq![c], x + seq![sep, c] + y) == spec_fuzzy_match(seq![c], x + seq![other, c] + y) + 30,
{
    let h1 = x + seq![sep, c] + y;
    let h2 = x + seq![other, c] + y;
    let j: int = x.len() as int + 1;
    assert(h1[j] == c && h1[j - 1] == sep);
    assert(h2[j] == c && h2[j - 1] == other);
    assert forall|m: int| 0 <= m < h1.len() && m != j implies lower1(#[trigger] h1[m]) != lower1(c) by {
        if m < x.len() {
            assert(h1[m] == x[m]);
        } else if m == x.len() {
        } else {
            assert(h1[m] == y[m - x.len() - 2]);
        }
    }
    assert forall|m: int| 0 <= m < h2.len() && m != j implies lower1(#[trigger] h2[m]) != lower1(c) by {
        if m < x.len() {
            assert(h2[m] == x[m]);
        } else if m == x.len() {
        } else {
            assert(h2[m] == y[m - x.len() - 2]);
        }
    }
    law_fuzzy_single_char_score(c, h1, j);
    law_fuzzy_single_char_score(c, h2, j);
}

/// A word whose first character matches only at position `j` scores what
/// matching it there earns.
proof fn lemma_scan_unique(p: Seq<char>, h: Seq<char>, prev: Option<char>, first_only: bool, first: bool, k: int, j: int)
    requires
        0 <= k <= j < h.len(),
        p.len() > 0,
        lower1(h[j]) == lower1(p[0]),
        forall|m: int| k <= m < h.len() && m != j ==> lower1(#[trigger] h[m]) != lower1(p[0]),
        fuzzy_rec(
            p.drop_first(),
            h.skip(j + 1),
            Some(h[j]),
            char_score(j as i32, first, h[j], if j == 0 { prev } else { Some(h[j - 1]) }),
            first_only,
            false,
        ) != i32::MIN,
    ensures
        fuzzy_scan(p, h, prev, first_only, first, k, i32::MIN) == fuzzy_rec(
            p.drop_first(),
            h.skip(j + 1),
            Some(h[j]),
            char_score(j as i32, first, h[j], if j == 0 { prev } else { Some(h[j - 1]) }),
            first_only,
            false,
        ),
    decreases j - k,
{
    if k < j {
        assert(lower1(h[k]) != lower1(p[0]));
        lemma_scan_unique(p, h, prev, first_only, first, k + 1, j);
    } else {
        let sub = fuzzy_rec(
            p.drop_first(),
            h.skip(j + 1),
            Some(h[j]),
            char_score(j as i32, first, h[j], if j == 0 { prev } else { Some(h[j - 1]) }),
            first_only,
            false,
        );
        if !first_only {
            lemma_scan_no_match(p, h, prev, first_only, first, j + 1, sub);
        }
    }
}

/// A two-character word matched by two adjacent characters earns the
/// adjacency bonus, 15, for its second character: with `a` only at `i` and
/// `b` only right after it, the score is what `a` alone would earn there
/// with one unmatched character fewer, plus 15, plus the bonuses that `b`
/// earns after `a` (30 for an uppercase `b` after a lowercase `a`, 30 for a
/// letter or digit `b` after a character that is neither).
pub proof fn law_fuzzy_adjacent_pair(a: char, b: char, h: Seq<char>, i: int)
    requires
        0 <= i,
        i + 1 < h.len(),
        h.len() <= fuzzy_length_limit(),
        h[i] == a,
        h[i + 1] == b,
        forall|m: int| 0 <= m < h.len() && m != i ==> lower1(#[trigger] h[m]) != lower1(a),
        forall|m: int| i + 1 < m < h.len() ==> lower1(#[trigger] h[m]) != lower1(b),
    ensures
        spec_fuzzy_match(seq![a, b], h) == -(h.len() - 2) + (if i == 0 {
            15int
        } else if i >= 3 {
            -15int
        } else {
            -5 * i
        }) + (if i > 0 && spec_is_uppercase(a) && spec_is_lowercase(h[i - 1]) {
            30int
        } else {
            0int
        }) + (if i > 0 && spec_is_alphanumeric(a) && !spec_is_alphanumeric(h[i - 1]) {
            30int
        } else {
            0int
        }) + 15 + (if spec_is_uppercase(b) && spec_is_lowercase(a) {
            30int
        } else {
            0int
        }) + (if spec_is_alphanumeric(b) && !spec_is_alphanumeric(a) {
            30int
        } else {
            0int
        }),
{
    let p = seq![a, b];
    assert(p[0] == a);
    assert(p.drop_first() =~= seq![b]);
    let fo = h.len() > FIRST_MATCH_ONLY_ABOVE;
    let jump = i as i32;
    assert(jump as int == i);
    lemma_wrapping_mul_fits(LEADING_LETTER_PENALTY, jump);
    let base_n = (h.len() - 2) as i32;
    assert(base_n as int == h.len() - 2);
    lemma_wrapping_mul_fits(UNMATCHED_LETTER_PENALTY, base_n);
    let before = if i == 0 { None } else { Some(h[i - 1]) };
    let cs_a = char_score(jump, true, a, before);
    let rest = h.skip(i + 1);
    assert(rest[0] == b);
    assert forall|m: int| 0 <= m < rest.len() && m != 0 implies lower1(#[trigger] rest[m]) != lower1(b) by {
        assert(rest[m] == h[m + i + 1]);
    }
    assert(0i32 as int == 0);
    lemma_scan_single(b, rest, Some(a), fo, false, 0, 0);
    let cs_b = char_score(0i32, false, b, Some(a));
    assert(seq![b].drop_first() =~= Seq::<char>::empty());
    assert(fuzzy_rec(seq![b], rest, Some(a), cs_a, fo, false) == sat_add(cs_a, cs_b));
    lemma_scan_unique(p, h, None, fo, true, 0, i);
}

} // verus!
