//! Semigroupoids with an identity.
use vstd::prelude::*;
use crate::semigroup::Semigroup;
use crate::semigroupoid::Semigroupoid;

verus! {

/// A category is some collection of objects and relationships (morphisms) between them.
///
/// This idea is captured by the notion of an identity function for objects, and the ability
/// to compose relationships between objects.
pub trait Category: Semigroupoid {
    /// A function which take something and return it again.
    fn identity(self) -> (r: Self)
        ensures
            r == self,
    ;
}

impl<A: Semigroup> Category for Option<A> {
    fn identity(self) -> (r: Self)
        ensures
            r == self,
    {
        self
    }
}

} // verus!
