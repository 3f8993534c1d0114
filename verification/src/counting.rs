//! Counting elements of a sequence that satisfy a predicate, with the
//! lemmas the rest of the engine needs: bounds, point updates, prefix
//! steps, concatenation, and pointwise correspondence.

use vstd::prelude::*;

verus! {

/// 1 if the condition holds, else 0.
pub open spec fn b2i(b: bool) -> int {
    if b {
        1
    } else {
        0
    }
}

/// Number of elements of `s` that satisfy `f`.
pub open spec fn count_matching<A>(s: Seq<A>, f: spec_fn(A) -> bool) -> int
    decreases s.len(),
{
    if s.len() == 0 {
        0
    } else {
        count_matching(s.drop_last(), f) + b2i(f(s.last()))
    }
}

pub proof fn lemma_count_matching_bounds<A>(s: Seq<A>, f: spec_fn(A) -> bool)
    ensures
        0 <= count_matching(s, f) <= s.len(),
    decreases s.len(),
{
    if s.len() > 0 {
        lemma_count_matching_bounds(s.drop_last(), f);
    }
}

/// Replacing one element changes the count by the difference of the two
/// elements' indicators.
pub proof fn lemma_count_matching_update<A>(s: Seq<A>, i: int, v: A, f: spec_fn(A) -> bool)
    requires
        0 <= i < s.len(),
    ensures
        count_matching(s.update(i, v), f) == count_matching(s, f) + b2i(f(v)) - b2i(f(s[i])),
    decreases s.len(),
{
    let su = s.update(i, v);
    if i == s.len() - 1 {
        assert(su.drop_last() =~= s.drop_last());
    } else {
        assert(su.drop_last() =~= s.drop_last().update(i, v));
        lemma_count_matching_update(s.drop_last(), i, v, f);
        assert(su.last() == s.last());
    }
}

/// Extending a prefix by one element adds that element's indicator.
pub proof fn lemma_count_matching_take_step<A>(s: Seq<A>, i: int, f: spec_fn(A) -> bool)
    requires
        0 <= i < s.len(),
    ensures
        count_matching(s.take(i + 1), f) == count_matching(s.take(i), f) + b2i(f(s[i])),
{
    assert(s.take(i + 1).drop_last() =~= s.take(i));
    assert(s.take(i + 1).last() == s[i]);
}

/// The whole sequence is its own full prefix.
pub proof fn lemma_count_matching_take_full<A>(s: Seq<A>, f: spec_fn(A) -> bool)
    ensures
        count_matching(s.take(s.len() as int), f) == count_matching(s, f),
{
    assert(s.take(s.len() as int) =~= s);
}

/// Counting distributes over concatenation.
pub proof fn lemma_count_matching_concat<A>(a: Seq<A>, b: Seq<A>, f: spec_fn(A) -> bool)
    ensures
        count_matching(a + b, f) == count_matching(a, f) + count_matching(b, f),
    decreases b.len(),
{
    if b.len() == 0 {
        assert(a + b =~= a);
    } else {
        assert((a + b).drop_last() =~= a + b.drop_last());
        assert((a + b).last() == b.last());
        lemma_count_matching_concat(a, b.drop_last(), f);
    }
}

/// Two sequences whose elements agree pointwise under their predicates
/// have equal counts.
pub proof fn lemma_count_matching_pointwise<A, B>(
    s: Seq<A>,
    t: Seq<B>,
    f: spec_fn(A) -> bool,
    g: spec_fn(B) -> bool,
)
    requires
        s.len() == t.len(),
        forall|i: int| 0 <= i < s.len() ==> f(#[trigger] s[i]) == g(#[trigger] t[i]),
    ensures
        count_matching(s, f) == count_matching(t, g),
    decreases s.len(),
{
    if s.len() > 0 {
        lemma_count_matching_pointwise(s.drop_last(), t.drop_last(), f, g);
    }
}

/// If no element satisfies `f`, the count is zero.
pub proof fn lemma_count_matching_none<A>(s: Seq<A>, f: spec_fn(A) -> bool)
    requires
        forall|i: int| 0 <= i < s.len() ==> !f(#[trigger] s[i]),
    ensures
        count_matching(s, f) == 0,
    decreases s.len(),
{
    if s.len() > 0 {
        lemma_count_matching_none(s.drop_last(), f);
    }
}

/// If every element satisfies `f`, the count is the whole length.
pub proof fn lemma_count_matching_all<A>(s: Seq<A>, f: spec_fn(A) -> bool)
    requires
        forall|i: int| 0 <= i < s.len() ==> f(#[trigger] s[i]),
    ensures
        count_matching(s, f) == s.len(),
    decreases s.len(),
{
    if s.len() > 0 {
        lemma_count_matching_all(s.drop_last(), f);
    }
}

} // verus!
