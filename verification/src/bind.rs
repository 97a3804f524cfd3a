//! Sequential composition on top of `Applicative`.
use vstd::prelude::*;
use crate::applicative::Applicative;
use crate::functor::Functor;
use crate::morphism::{spec_of, Morphism};

verus! {

/// `Bind` extends `Applicative` with sequential composition: the function given to `bind`
/// decides, from the value inside, what comes next. A container that has failed hands no
/// value to the function and stays as it is.
pub trait Bind<'a, B: 'a>: Applicative<'a, B> {
    /// The values that `bind` hands to its function before it returns.
    spec fn bind_applies_to(&self, a: <Self as Functor<'a, B>>::Unwrapped) -> bool;

    /// `r` is `self` bound to a function of contract `f`.
    spec fn bind_ensures(
        self,
        f: Morphism<<Self as Functor<'a, B>>::Unwrapped, <Self as Functor<'a, B>>::Wrapped>,
        r: <Self as Functor<'a, B>>::Wrapped,
    ) -> bool;

    /// What holds of the result for the contract `g` holds for every contract that `g` refines.
    proof fn lemma_bind_refined(
        self,
        f: Morphism<<Self as Functor<'a, B>>::Unwrapped, <Self as Functor<'a, B>>::Wrapped>,
        g: Morphism<<Self as Functor<'a, B>>::Unwrapped, <Self as Functor<'a, B>>::Wrapped>,
        r: <Self as Functor<'a, B>>::Wrapped,
    )
        requires
            f.refined_by(g),
            self.bind_ensures(g, r),
        ensures
            self.bind_ensures(f, r),
    ;

    fn bind<F>(self, f: F) -> (r: <Self as Functor<'a, B>>::Wrapped) where
        F: FnOnce(<Self as Functor<'a, B>>::Unwrapped) -> <Self as Functor<'a, B>>::Wrapped + 'a,

        requires
            forall|a: <Self as Functor<'a, B>>::Unwrapped| #[trigger]
                self.bind_applies_to(a) ==> f.requires((a,)),
        ensures
            self.bind_ensures(spec_of(f), r),
    ;
}

impl<'a, A, B: 'a> Bind<'a, B> for Option<A> {
    open spec fn bind_applies_to(&self, a: A) -> bool {
        *self == Some(a)
    }

    /// `None` stays `None`; for `Some(a)`, what the function returns on `a`.
    open spec fn bind_ensures(self, f: Morphism<A, Option<B>>, r: Option<B>) -> bool {
        match self {
            Some(a) => (f.post)(a, r),
            None => r is None,
        }
    }

    proof fn lemma_bind_refined(
        self,
        f: Morphism<A, Option<B>>,
        g: Morphism<A, Option<B>>,
        r: Option<B>,
    ) {
    }

    fn bind<F>(self, f: F) -> (r: Option<B>) where F: FnOnce(A) -> Option<B> + 'a
        ensures
            match self {
                Some(a) => f.ensures((a,), r),
                None => r is None,
            },
    {
        match self {
            Some(a) => {
                assert(<Self as Bind<'a, B>>::bind_applies_to(&self, a));
                f(a)
            },
            None => None,
        }
    }
}

impl<'a, A, E, B: 'a> Bind<'a, B> for Result<A, E> {
    open spec fn bind_applies_to(&self, a: A) -> bool {
        *self == Ok::<A, E>(a)
    }

    /// An error stays as it is; for `Ok(a)`, what the function returns on `a`.
    open spec fn bind_ensures(self, f: Morphism<A, Result<B, E>>, r: Result<B, E>) -> bool {
        match self {
            Ok(a) => (f.post)(a, r),
            Err(e) => r == Err::<B, E>(e),
        }
    }

    proof fn lemma_bind_refined(
        self,
        f: Morphism<A, Result<B, E>>,
        g: Morphism<A, Result<B, E>>,
        r: Result<B, E>,
    ) {
    }

    fn bind<F>(self, f: F) -> (r: Result<B, E>) where F: FnOnce(A) -> Result<B, E> + 'a
        ensures
            match self {
                Ok(a) => f.ensures((a,), r),
                Err(e) => r == Err::<B, E>(e),
            },
    {
        match self {
            Ok(a) => {
                assert(<Self as Bind<'a, B>>::bind_applies_to(&self, a));
                f(a)
            },
            Err(e) => Err(e),
        }
    }
}

} // verus!
