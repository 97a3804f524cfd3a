//! Semigroups with an identity element.
use vstd::prelude::*;
use crate::semigroup::Semigroup;

verus! {

/// In abstract algebra, a `Monoid` is a set equipped with an associative binary operation
/// and an identity element: the operation of the [`Semigroup`], and the `mempty` defined
/// here.
///
/// Every implementation proves that the identity is neutral on both sides.
pub trait Monoid: Semigroup {
    /// The view of the identity element.
    spec fn empty() -> Self::V;

    /// [`Monoid::empty`] is a left and a right identity of [`Semigroup::combine`].
    proof fn lemma_empty_is_identity(a: Self::V)
        ensures
            Self::combine(Self::empty(), a) == a,
            Self::combine(a, Self::empty()) == a,
    ;

    /// The identity element of the monoid
    fn mempty() -> (r: Self)
        ensures
            r@ == Self::empty(),
    ;
}

impl Monoid for String {
    open spec fn empty() -> Seq<char> {
        Seq::empty()
    }

    proof fn lemma_empty_is_identity(a: Seq<char>) {
        assert(Seq::<char>::empty() + a =~= a);
        assert(a + Seq::<char>::empty() =~= a);
    }

    fn mempty() -> (r: Self)
        ensures
            r@ == Seq::<char>::empty(),
    {
        String::new()
    }
}

impl Monoid for i32 {
    open spec fn empty() -> i32 {
        0
    }

    proof fn lemma_empty_is_identity(a: i32) {
    }

    fn mempty() -> (r: Self)
        ensures
            r == 0,
    {
        0
    }
}

impl<A> Monoid for Vec<A> {
    open spec fn empty() -> Seq<A> {
        Seq::empty()
    }

    proof fn lemma_empty_is_identity(a: Seq<A>) {
        assert(Seq::<A>::empty() + a =~= a);
        assert(a + Seq::<A>::empty() =~= a);
    }

    fn mempty() -> (r: Self)
        ensures
            r@ == Seq::<A>::empty(),
    {
        Vec::new()
    }
}

} // verus!
