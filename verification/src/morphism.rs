//! Function values as the contracts speak of them.
//!
//! An executable closure is known to the verifier by two predicates: the arguments it may be
//! called with, and the results it may return for them. [`Morphism`] holds the two together,
//! so that the contract of a higher-order function can name "the function it was given".
use vstd::prelude::*;

verus! {

/// The contract of a function from `A` to `B`.
///
/// `pre` holds of the arguments the function accepts; `post` relates an argument to each
/// result the function may return for it.
#[verifier::reject_recursive_types(A)]
#[verifier::reject_recursive_types(B)]
pub struct Morphism<A, B> {
    pub pre: spec_fn(A) -> bool,
    pub post: spec_fn(A, B) -> bool,
}

/// The contract of the unary function value `f`.
pub open spec fn spec_of<A, B, F: FnOnce(A) -> B>(f: F) -> Morphism<A, B> {
    Morphism { pre: |a: A| f.requires((a,)), post: |a: A, b: B| f.ensures((a,), b) }
}

/// The contract of the binary function value `f`, as a morphism from pairs.
pub open spec fn spec_of2<A, B, C, F: FnOnce(A, B) -> C>(f: F) -> Morphism<(A, B), C> {
    Morphism { pre: |p: (A, B)| f.requires(p), post: |p: (A, B), c: C| f.ensures(p, c) }
}

impl<A, B> Morphism<A, B> {
    /// `other` may stand wherever `self` is asked for: it accepts every argument that `self`
    /// accepts and returns nothing that `self` could not return.
    pub open spec fn refined_by(self, other: Morphism<A, B>) -> bool {
        &&& forall|a: A| #[trigger] (self.pre)(a) ==> (other.pre)(a)
        &&& forall|a: A, b: B| #[trigger] (other.post)(a, b) ==> (self.post)(a, b)
    }

    /// The total function that maps `a` to `f(a)` and to nothing else.
    pub open spec fn total(f: spec_fn(A) -> B) -> Morphism<A, B> {
        Morphism { pre: |a: A| true, post: |a: A, b: B| b == f(a) }
    }

    /// No argument has two different results.
    pub open spec fn deterministic(self) -> bool {
        forall|a: A, b1: B, b2: B|
            #![trigger (self.post)(a, b1), (self.post)(a, b2)]
            (self.post)(a, b1) && (self.post)(a, b2) ==> b1 == b2
    }

    /// `self` first, `next` on what it returned.
    pub open spec fn and_then<C>(self, next: Morphism<B, C>) -> Morphism<A, C> {
        Morphism {
            pre: |a: A| (self.pre)(a) && forall|b: B| #[trigger] (self.post)(a, b) ==> (next.pre)(b),
            post: |a: A, c: C| exists|b: B| #[trigger] (self.post)(a, b) && (next.post)(b, c),
        }
    }
}

impl<A> Morphism<A, A> {
    /// The function that returns its argument.
    pub open spec fn identity() -> Morphism<A, A> {
        Morphism { pre: |a: A| true, post: |a: A, b: A| b == a }
    }
}

/// Two deterministic functions, one after the other, are deterministic.
pub proof fn lemma_and_then_deterministic<A, B, C>(f: Morphism<A, B>, g: Morphism<B, C>)
    requires
        f.deterministic(),
        g.deterministic(),
    ensures
        f.and_then(g).deterministic(),
{
    let h = f.and_then(g);
    assert forall|a: A, c1: C, c2: C| #[trigger] (h.post)(a, c1) && #[trigger] (h.post)(a, c2) implies c1 == c2 by {
        let b1 = choose|b: B| #[trigger] (f.post)(a, b) && (g.post)(b, c1);
        let b2 = choose|b: B| #[trigger] (f.post)(a, b) && (g.post)(b, c2);
        assert(b1 == b2);
    }
}

} // verus!
