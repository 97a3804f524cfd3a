//! Lifting plain values into a context.
use vstd::prelude::*;
use crate::apply::Apply;
use crate::functor::Functor;

verus! {

/// `Applicative` extends `Apply` with the ability to lift value into a particular data type
/// or "context".
pub trait Applicative<'a, B: 'a>: Apply<'a, B, B> {
    /// `r` is `value` in the minimal context.
    spec fn of_ensures(value: B, r: <Self as Functor<'a, B>>::Wrapped) -> bool;

    /// Lift a value into a context
    fn of(value: B) -> (r: <Self as Functor<'a, B>>::Wrapped)
        ensures
            Self::of_ensures(value, r),
    ;
}

impl<'a, A, B: 'a> Applicative<'a, B> for Option<A> {
    open spec fn of_ensures(value: B, r: Option<B>) -> bool {
        r == Some(value)
    }

    fn of(value: B) -> (r: Option<B>)
        ensures
            r == Some(value),
    {
        Some(value)
    }
}

impl<'a, A, E, B: 'a> Applicative<'a, B> for Result<A, E> {
    open spec fn of_ensures(value: B, r: Result<B, E>) -> bool {
        r == Ok::<B, E>(value)
    }

    fn of(value: B) -> (r: Result<B, E>)
        ensures
            r == Ok::<B, E>(value),
    {
        Result::Ok(value)
    }
}

} // verus!
