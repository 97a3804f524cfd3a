//! Composition of morphisms.
use vstd::prelude::*;
use crate::apply::Apply;
use crate::semigroup::Semigroup;

verus! {

/// A semigroupoid describes some way of composing morphisms on between some collection of
/// objects.
pub trait Semigroupoid: Sized {
    /// `r` is the composition of `self` and `other`.
    spec fn compose_ensures(self, other: Self, r: Self) -> bool;

    /// Take two morphisms and return their composition "the math way".
    /// That is, `(b -> c) -> (a -> b) -> (a -> c)`.
    fn compose(self, other: Self) -> (r: Self)
        ensures
            self.compose_ensures(other, r),
    ;
}

/// Morphisms in Rust are normal functions, `Fn/FnMut/FnOnce`, which no trait of this library
/// can be implemented for. This generic function composes two of them: `f` first, then `g`.
///
/// The composition may be called wherever `f` may be called and `g` accepts whatever `f`
/// returns; it returns what `g` returns on a result of `f`.
pub fn compose<A, B, C, G, F>(f: F, g: G) -> (h: impl Fn(A) -> C) where
    F: Fn(A) -> B,
    G: Fn(B) -> C,

    ensures
        forall|x: A|
            (f.requires((x,)) && forall|y: B| f.ensures((x,), y) ==> g.requires((y,)))
                ==> #[trigger] h.requires((x,)),
        forall|x: A, z: C| #[trigger]
            h.ensures((x,), z) ==> exists|y: B| f.ensures((x,), y) && g.ensures((y,), z),
{
    move |x: A| -> (z: C)
        requires
            f.requires((x,)),
            forall|y: B| f.ensures((x,), y) ==> g.requires((y,)),
        ensures
            exists|y: B| f.ensures((x,), y) && g.ensures((y,), z),
        { g(f(x)) }
}

impl<A> Semigroupoid for Option<A> where A: Semigroup {
    /// Two values that are there are combined as the semigroup says; where one is missing,
    /// so is the composition.
    open spec fn compose_ensures(self, other: Self, r: Self) -> bool {
        match (self, other) {
            (Some(a), Some(b)) => r matches Some(c) && c@ == A::combine(a@, b@),
            _ => r is None,
        }
    }

    fn compose(self, other: Self) -> (r: Self)
        ensures
            self.compose_ensures(other, r),
    {
        let append = |a: A, b: A| -> (c: A)
            ensures
                c@ == A::combine(a@, b@),
            { a.mappend(b) };
        self.lift_a2(other, append)
    }
}

/// Composition on `Option` is associative, up to the view of what is inside.
pub proof fn lemma_option_compose_associative<A: Semigroup>(
    a: Option<A>,
    b: Option<A>,
    c: Option<A>,
    ab: Option<A>,
    bc: Option<A>,
    r1: Option<A>,
    r2: Option<A>,
)
    requires
        a.compose_ensures(b, ab),
        ab.compose_ensures(c, r1),
        b.compose_ensures(c, bc),
        a.compose_ensures(bc, r2),
    ensures
        r1 is Some <==> r2 is Some,
        r1 is Some ==> r1->0@ == r2->0@,
{
    if r1 is Some {
        A::lemma_combine_associative(a->0@, b->0@, c->0@);
    }
}

} // verus!
