//! Stable insertion sort, specified over sequences.
//!
//! `keeps_before(a, b)` says that `a` may stay in front of `b`; an element is
//! inserted after the last element that may stay in front of it, so elements
//! that compare equal keep their original order.

use vstd::prelude::*;

verus! {

/// Where `x` goes when inserted into `sorted`: after the last element that may
/// stay in front of it.
pub open spec fn insert_pos<E>(sorted: Seq<E>, x: E, keeps_before: spec_fn(E, E) -> bool) -> int
    decreases sorted.len(),
{
    if sorted.len() == 0 {
        0
    } else if keeps_before(sorted.last(), x) {
        sorted.len() as int
    } else {
        insert_pos(sorted.drop_last(), x, keeps_before)
    }
}

/// `sorted` with `x` inserted at [`insert_pos`].
pub open spec fn insert_sorted<E>(sorted: Seq<E>, x: E, keeps_before: spec_fn(E, E) -> bool) -> Seq<E> {
    sorted.insert(insert_pos(sorted, x, keeps_before), x)
}

/// The stable sort of `s`: its elements inserted one by one, in order.
pub open spec fn stable_sort<E>(s: Seq<E>, keeps_before: spec_fn(E, E) -> bool) -> Seq<E>
    decreases s.len(),
{
    if s.len() == 0 {
        Seq::empty()
    } else {
        insert_sorted(stable_sort(s.drop_last(), keeps_before), s.last(), keeps_before)
    }
}

/// `keeps_before` orders every pair one way or the other, transitively.
pub open spec fn total_preorder<E>(keeps_before: spec_fn(E, E) -> bool) -> bool {
    &&& forall|a: E, b: E| #[trigger] keeps_before(a, b) || #[trigger] keeps_before(b, a)
    &&& forall|a: E, b: E, c: E|
        #[trigger] keeps_before(a, b) && #[trigger] keeps_before(b, c) ==> keeps_before(a, c)
}

/// Every element may stay in front of every later one.
pub open spec fn is_sorted_by<E>(s: Seq<E>, keeps_before: spec_fn(E, E) -> bool) -> bool {
    forall|i: int, j: int| 0 <= i < j < s.len() ==> keeps_before(#[trigger] s[i], #[trigger] s[j])
}

pub proof fn lemma_insert_pos_bounds<E>(sorted: Seq<E>, x: E, keeps_before: spec_fn(E, E) -> bool)
    ensures
        0 <= insert_pos(sorted, x, keeps_before) <= sorted.len(),
        forall|k: int|
            insert_pos(sorted, x, keeps_before) <= k < sorted.len() ==> !keeps_before(
                #[trigger] sorted[k],
                x,
            ),
        insert_pos(sorted, x, keeps_before) > 0 ==> keeps_before(
            sorted[insert_pos(sorted, x, keeps_before) - 1],
            x,
        ),
    decreases sorted.len(),
{
    if sorted.len() > 0 && !keeps_before(sorted.last(), x) {
        lemma_insert_pos_bounds(sorted.drop_last(), x, keeps_before);
        assert forall|k: int|
            insert_pos(sorted, x, keeps_before) <= k < sorted.len() implies !keeps_before(
                #[trigger] sorted[k],
                x,
            ) by {
            if k < sorted.len() - 1 {
                assert(sorted.drop_last()[k] == sorted[k]);
            }
        }
    }
}

/// A stable sort rearranges its input: it holds the same elements, as often.
pub proof fn lemma_stable_sort_permutes<E>(s: Seq<E>, keeps_before: spec_fn(E, E) -> bool)
    ensures
        stable_sort(s, keeps_before).to_multiset() == s.to_multiset(),
        stable_sort(s, keeps_before).len() == s.len(),
    decreases s.len(),
{
    if s.len() > 0 {
        let rest = stable_sort(s.drop_last(), keeps_before);
        lemma_stable_sort_permutes(s.drop_last(), keeps_before);
        lemma_insert_pos_bounds(rest, s.last(), keeps_before);
        let p = insert_pos(rest, s.last(), keeps_before);
        vstd::seq_lib::to_multiset_insert(rest, p, s.last());
        assert(s =~= s.drop_last().push(s.last()));
        vstd::seq_lib::to_multiset_build(s.drop_last(), s.last());
    } else {
        assert(s =~= Seq::<E>::empty());
    }
}

/// Under a total preorder, a stable sort's output is sorted.
pub proof fn lemma_stable_sort_sorted<E>(s: Seq<E>, keeps_before: spec_fn(E, E) -> bool)
    requires
        total_preorder(keeps_before),
    ensures
        is_sorted_by(stable_sort(s, keeps_before), keeps_before),
    decreases s.len(),
{
    if s.len() > 0 {
        let rest = stable_sort(s.drop_last(), keeps_before);
        let x = s.last();
        lemma_stable_sort_sorted(s.drop_last(), keeps_before);
        lemma_insert_pos_bounds(rest, x, keeps_before);
        let p = insert_pos(rest, x, keeps_before);
        let out = rest.insert(p, x);
        assert forall|i: int, j: int| 0 <= i < j < out.len() implies keeps_before(
            #[trigger] out[i],
            #[trigger] out[j],
        ) by {
            if j < p {
                assert(out[i] == rest[i] && out[j] == rest[j]);
            } else if j == p {
                assert(out[i] == rest[i]);
                assert(keeps_before(rest[p - 1], x));
                if i < p - 1 {
                    assert(keeps_before(rest[i], rest[p - 1]));
                }
            } else if i == p {
                assert(out[j] == rest[j - 1]);
                assert(!keeps_before(rest[j - 1], x));
            } else if i < p {
                assert(out[i] == rest[i] && out[j] == rest[j - 1]);
            } else {
                assert(out[i] == rest[i - 1] && out[j] == rest[j - 1]);
            }
        }
    }
}

/// Where an element goes does not change when both sides are seen through a
/// map that the ordering factors through.
pub proof fn lemma_insert_pos_map<E, V>(
    sorted: Seq<E>,
    x: E,
    f: spec_fn(E) -> V,
    rel: spec_fn(V, V) -> bool,
    rel_e: spec_fn(E, E) -> bool,
)
    requires
        forall|a: E, b: E| #[trigger] rel_e(a, b) == rel(f(a), f(b)),
    ensures
        insert_pos(sorted, x, rel_e) == insert_pos(sorted.map_values(f), f(x), rel),
    decreases sorted.len(),
{
    if sorted.len() > 0 {
        assert(sorted.map_values(f).drop_last() =~= sorted.drop_last().map_values(f));
        assert(sorted.map_values(f).last() == f(sorted.last()));
        lemma_insert_pos_map(sorted.drop_last(), x, f, rel, rel_e);
    }
}

/// Sorting commutes with a map that the ordering factors through.
pub proof fn lemma_stable_sort_map<E, V>(
    s: Seq<E>,
    f: spec_fn(E) -> V,
    rel: spec_fn(V, V) -> bool,
    rel_e: spec_fn(E, E) -> bool,
)
    requires
        forall|a: E, b: E| #[trigger] rel_e(a, b) == rel(f(a), f(b)),
    ensures
        stable_sort(s, rel_e).map_values(f) == stable_sort(s.map_values(f), rel),
    decreases s.len(),
{
    if s.len() > 0 {
        let rest = stable_sort(s.drop_last(), rel_e);
        lemma_stable_sort_map(s.drop_last(), f, rel, rel_e);
        assert(s.map_values(f).drop_last() =~= s.drop_last().map_values(f));
        assert(s.map_values(f).last() == f(s.last()));
        lemma_insert_pos_map(rest, s.last(), f, rel, rel_e);
        lemma_insert_pos_bounds(rest, s.last(), rel_e);
        let p = insert_pos(rest, s.last(), rel_e);
        assert(rest.insert(p, s.last()).map_values(f) =~= rest.map_values(f).insert(p, f(s.last())));
    } else {
        assert(stable_sort(s, rel_e).map_values(f) =~= Seq::<V>::empty());
    }
}

/// A stable sort keeps every element that has a property, and its length.
pub proof fn lemma_stable_sort_all<E>(s: Seq<E>, keeps_before: spec_fn(E, E) -> bool, p: spec_fn(E) -> bool)
    requires
        forall|i: int| 0 <= i < s.len() ==> p(#[trigger] s[i]),
    ensures
        stable_sort(s, keeps_before).len() == s.len(),
        forall|i: int| 0 <= i < s.len() ==> p(#[trigger] stable_sort(s, keeps_before)[i]),
    decreases s.len(),
{
    if s.len() > 0 {
        let rest = stable_sort(s.drop_last(), keeps_before);
        lemma_stable_sort_all(s.drop_last(), keeps_before, p);
        lemma_insert_pos_bounds(rest, s.last(), keeps_before);
        let k = insert_pos(rest, s.last(), keeps_before);
        assert forall|i: int| 0 <= i < s.len() implies p(#[trigger] stable_sort(s, keeps_before)[i]) by {
            if i < k {
                assert(stable_sort(s, keeps_before)[i] == rest[i]);
            } else if i > k {
                assert(stable_sort(s, keeps_before)[i] == rest[i - 1]);
            }
        }
    }
}

/// [`lemma_insert_pos_map`] for elements that have a property on which the
/// ordering factors through `f`.
pub proof fn lemma_insert_pos_map_on<E, V>(
    sorted: Seq<E>,
    x: E,
    f: spec_fn(E) -> V,
    rel: spec_fn(V, V) -> bool,
    rel_e: spec_fn(E, E) -> bool,
    p: spec_fn(E) -> bool,
)
    requires
        forall|a: E, b: E| p(a) && p(b) ==> #[trigger] rel_e(a, b) == rel(f(a), f(b)),
        forall|i: int| 0 <= i < sorted.len() ==> p(#[trigger] sorted[i]),
        p(x),
    ensures
        insert_pos(sorted, x, rel_e) == insert_pos(sorted.map_values(f), f(x), rel),
    decreases sorted.len(),
{
    if sorted.len() > 0 {
        assert(sorted.map_values(f).drop_last() =~= sorted.drop_last().map_values(f));
        assert(sorted.map_values(f).last() == f(sorted.last()));
        assert(p(sorted[sorted.len() - 1]));
        assert(forall|i: int| 0 <= i < sorted.drop_last().len() ==> sorted.drop_last()[i] == sorted[i]);
        lemma_insert_pos_map_on(sorted.drop_last(), x, f, rel, rel_e, p);
    }
}

/// [`lemma_stable_sort_map`] for sequences whose elements have a property on
/// which the ordering factors through `f`.
pub proof fn lemma_stable_sort_map_on<E, V>(
    s: Seq<E>,
    f: spec_fn(E) -> V,
    rel: spec_fn(V, V) -> bool,
    rel_e: spec_fn(E, E) -> bool,
    p: spec_fn(E) -> bool,
)
    requires
        forall|a: E, b: E| p(a) && p(b) ==> #[trigger] rel_e(a, b) == rel(f(a), f(b)),
        forall|i: int| 0 <= i < s.len() ==> p(#[trigger] s[i]),
    ensures
        stable_sort(s, rel_e).map_values(f) == stable_sort(s.map_values(f), rel),
    decreases s.len(),
{
    if s.len() > 0 {
        let rest = stable_sort(s.drop_last(), rel_e);
        assert(forall|i: int| 0 <= i < s.drop_last().len() ==> s.drop_last()[i] == s[i]);
        lemma_stable_sort_map_on(s.drop_last(), f, rel, rel_e, p);
        lemma_stable_sort_all(s.drop_last(), rel_e, p);
        assert(s.map_values(f).drop_last() =~= s.drop_last().map_values(f));
        assert(s.map_values(f).last() == f(s.last()));
        assert(p(s[s.len() - 1]));
        lemma_insert_pos_map_on(rest, s.last(), f, rel, rel_e, p);
        lemma_insert_pos_bounds(rest, s.last(), rel_e);
        let k = insert_pos(rest, s.last(), rel_e);
        assert(rest.insert(k, s.last()).map_values(f) =~= rest.map_values(f).insert(k, f(s.last())));
    } else {
        assert(stable_sort(s, rel_e).map_values(f) =~= Seq::<V>::empty());
    }
}

/// Sorts `v` stably; `keeps_before_exec` computes `keeps_before`.
pub(crate) fn sort_stable<E, F: Fn(&E, &E) -> bool>(
    v: Vec<E>,
    Ghost(keeps_before): Ghost<spec_fn(E, E) -> bool>,
    keeps_before_exec: F,
) -> (out: Vec<E>)
    requires
        forall|a: &E, b: &E| #[trigger] keeps_before_exec.requires((a, b)),
        forall|a: &E, b: &E, r: bool|
            keeps_before_exec.ensures((a, b), r) ==> r == keeps_before(*a, *b),
    ensures
        out@ == stable_sort(v@, keeps_before),
{
    let ghost orig = v@;
    let n = v.len();
    let mut rest = v;
    let mut out: Vec<E> = Vec::new();
    let mut k: usize = 0;
    proof {
        assert(orig.skip(0) =~= orig);
        assert(orig.take(0) =~= Seq::<E>::empty());
    }
    while rest.len() > 0
        invariant
            forall|a: &E, b: &E| #[trigger] keeps_before_exec.requires((a, b)),
            forall|a: &E, b: &E, r: bool|
                keeps_before_exec.ensures((a, b), r) ==> r == keeps_before(*a, *b),
            k <= orig.len(),
            n == orig.len(),
            rest@ == orig.skip(k as int),
            out@ == stable_sort(orig.take(k as int), keeps_before),
        decreases rest@.len(),
    {
        let x = rest.remove(0);
        let mut p = out.len();
        proof {
            assert(x == orig[k as int]);
            assert(out@.take(p as int) =~= out@);
        }
        while p > 0 && !keeps_before_exec(&out[p - 1], &x)
            invariant
                forall|a: &E, b: &E| #[trigger] keeps_before_exec.requires((a, b)),
                forall|a: &E, b: &E, r: bool|
                    keeps_before_exec.ensures((a, b), r) ==> r == keeps_before(*a, *b),
                p <= out@.len(),
                insert_pos(out@, x, keeps_before) == insert_pos(out@.take(p as int), x, keeps_before),
            decreases p,
        {
            proof {
                assert(out@.take(p as int).drop_last() =~= out@.take(p - 1));
                assert(out@.take(p as int).last() == out@[p - 1]);
            }
            p = p - 1;
        }
        proof {
            if p > 0 {
                assert(out@.take(p as int).last() == out@[p - 1]);
            }
            assert(insert_pos(out@.take(p as int), x, keeps_before) == p);
            assert(orig.take(k + 1).drop_last() =~= orig.take(k as int));
            assert(orig.take(k + 1).last() == x);
            assert(orig.skip(k as int).remove(0) =~= orig.skip(k + 1));
        }
        out.insert(p, x);
        k = k + 1;
    }
    proof {
        assert(orig.take(k as int) =~= orig);
    }
    out
}

} // verus!
