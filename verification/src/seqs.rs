//! Searches over sequences, stated left to right, with the lemmas that
//! let a loop stop at the first hit.

use vstd::prelude::*;

verus! {

/// The result of `f` on the first element for which it gives `Some`.
pub open spec fn first_some<A>(xs: Seq<A>, f: spec_fn(A) -> Option<Seq<char>>) -> Option<Seq<char>>
    decreases xs.len(),
{
    if xs.len() == 0 {
        None
    } else {
        match first_some(xs.drop_last(), f) {
            Some(r) => Some(r),
            None => f(xs.last()),
        }
    }
}

/// The first hit in a concatenation is the first hit of its front part,
/// or else the first hit of its back part.
pub proof fn lemma_first_some_concat<A>(a: Seq<A>, b: Seq<A>, f: spec_fn(A) -> Option<Seq<char>>)
    ensures
        first_some(a + b, f) == (match first_some(a, f) {
            Some(r) => Some(r),
            None => first_some(b, f),
        }),
    decreases b.len(),
{
    if b.len() == 0 {
        assert(a + b == a);
    } else {
        lemma_first_some_concat(a, b.drop_last(), f);
        assert((a + b).drop_last() == a + b.drop_last());
        assert((a + b).last() == b.last());
    }
}

/// Stepping a left-to-right scan by one element.
pub proof fn lemma_first_some_step<A>(xs: Seq<A>, i: int, f: spec_fn(A) -> Option<Seq<char>>)
    requires
        0 <= i < xs.len(),
    ensures
        first_some(xs.take(i + 1), f) == (match first_some(xs.take(i), f) {
            Some(r) => Some(r),
            None => f(xs[i]),
        }),
{
    assert(xs.take(i + 1).drop_last() == xs.take(i));
    assert(xs.take(i + 1).last() == xs[i]);
}

/// A hit found in a prefix is the first hit of the whole sequence.
pub proof fn lemma_first_some_prefix<A>(xs: Seq<A>, i: int, f: spec_fn(A) -> Option<Seq<char>>)
    requires
        0 <= i <= xs.len(),
        first_some(xs.take(i), f) is Some || i == xs.len(),
    ensures
        first_some(xs, f) == first_some(xs.take(i), f),
{
    lemma_first_some_concat(xs.take(i), xs.skip(i), f);
    assert(xs.take(i) + xs.skip(i) == xs);
}

/// A one-element sequence hits where its element does.
pub proof fn lemma_first_some_single<A>(x: A, f: spec_fn(A) -> Option<Seq<char>>)
    ensures
        first_some(seq![x], f) == f(x),
{
    assert(seq![x].drop_last() =~= Seq::<A>::empty());
    assert(seq![x].last() == x);
    assert(first_some(Seq::<A>::empty(), f) is None);
    assert(first_some(seq![x].drop_last(), f) is None);
}

} // verus!
