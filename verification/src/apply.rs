//! Function application inside a context.
use vstd::prelude::*;
use crate::functor::Functor;
use crate::morphism::{spec_of2, Morphism};

verus! {

/// An extension of `Functor`, `Apply` provides a way to _apply_ arguments to functions when
/// both are wrapped in the same kind of container. This can be seen as running function
/// application "in a context".
///
/// `X` is what the second container holds: the function for `ap`, the second argument for
/// `lift_a2`. `B` is what the result holds.
///
/// Where both the value and the function (or second value) have failed, the failure of the
/// value, that is of `self`, is the one that is returned.
pub trait Apply<'a, X: 'a, B: 'a>: Functor<'a, X> + Functor<'a, B> {
    /// `ap` may be called with the wrapped function `f`.
    spec fn ap_requires(&self, f: &<Self as Functor<'a, X>>::Wrapped) -> bool where
        X: FnOnce(<Self as Functor<'a, B>>::Unwrapped) -> B,
    ;

    /// `r` is the wrapped function `f` applied to `self`.
    spec fn ap_ensures(
        self,
        f: <Self as Functor<'a, X>>::Wrapped,
        r: <Self as Functor<'a, B>>::Wrapped,
    ) -> bool where X: FnOnce(<Self as Functor<'a, B>>::Unwrapped) -> B;

    /// The pairs of values that `lift_a2` hands to its function before it returns.
    spec fn lift_a2_applies_to(
        &self,
        other: &<Self as Functor<'a, X>>::Wrapped,
        a: <Self as Functor<'a, B>>::Unwrapped,
        x: X,
    ) -> bool;

    /// `r` is `self` and `other` combined by a binary function of contract `f`.
    spec fn lift_a2_ensures(
        self,
        other: <Self as Functor<'a, X>>::Wrapped,
        f: Morphism<(<Self as Functor<'a, B>>::Unwrapped, X), B>,
        r: <Self as Functor<'a, B>>::Wrapped,
    ) -> bool;

    /// What holds of the result for the contract `g` holds for every contract that `g` refines.
    proof fn lemma_lift_a2_refined(
        self,
        other: <Self as Functor<'a, X>>::Wrapped,
        f: Morphism<(<Self as Functor<'a, B>>::Unwrapped, X), B>,
        g: Morphism<(<Self as Functor<'a, B>>::Unwrapped, X), B>,
        r: <Self as Functor<'a, B>>::Wrapped,
    )
        requires
            f.refined_by(g),
            self.lift_a2_ensures(other, g, r),
        ensures
            self.lift_a2_ensures(other, f, r),
    ;

    /// Apply a function wrapped in a context to to a value wrapped in the same type of context
    fn ap(self, f: <Self as Functor<'a, X>>::Wrapped) -> (r: <Self as Functor<'a, B>>::Wrapped) where
        X: FnOnce(<Self as Functor<'a, B>>::Unwrapped) -> B,

        requires
            self.ap_requires(&f),
        ensures
            self.ap_ensures(f, r),
    ;

    /// Lift an (unwrapped) binary function and apply to two wrapped values
    fn lift_a2<F>(self, other: <Self as Functor<'a, X>>::Wrapped, f: F) -> (r: <Self as Functor<
        'a,
        B,
    >>::Wrapped) where F: FnOnce(<Self as Functor<'a, B>>::Unwrapped, X) -> B + 'a
        requires
            forall|a: <Self as Functor<'a, B>>::Unwrapped, x: X| #[trigger]
                self.lift_a2_applies_to(&other, a, x) ==> f.requires((a, x)),
        ensures
            self.lift_a2_ensures(other, spec_of2(f), r),
    ;
}

impl<'a, A, X: 'a, B: 'a> Apply<'a, X, B> for Option<A> {
    open spec fn ap_requires(&self, f: &Option<X>) -> bool where X: FnOnce(A) -> B {
        match (*self, *f) {
            (Some(a), Some(z)) => z.requires((a,)),
            _ => true,
        }
    }

    /// `Some` of the function's result where both are there, `None` otherwise.
    open spec fn ap_ensures(self, f: Option<X>, r: Option<B>) -> bool where X: FnOnce(A) -> B {
        match (self, f) {
            (Some(a), Some(z)) => r matches Some(b) && z.ensures((a,), b),
            _ => r is None,
        }
    }

    open spec fn lift_a2_applies_to(&self, other: &Option<X>, a: A, x: X) -> bool {
        *self == Some(a) && *other == Some(x)
    }

    /// `Some` of the function's result where both are there, `None` otherwise.
    open spec fn lift_a2_ensures(
        self,
        other: Option<X>,
        f: Morphism<(A, X), B>,
        r: Option<B>,
    ) -> bool {
        match (self, other) {
            (Some(a), Some(x)) => r matches Some(b) && (f.post)((a, x), b),
            _ => r is None,
        }
    }

    proof fn lemma_lift_a2_refined(
        self,
        other: Option<X>,
        f: Morphism<(A, X), B>,
        g: Morphism<(A, X), B>,
        r: Option<B>,
    ) {
    }

    fn ap(self, f: Option<X>) -> (r: Option<B>) where X: FnOnce(A) -> B
        ensures
            <Self as Apply<'a, X, B>>::ap_ensures(self, f, r),
    {
        match self {
            Some(x) => match f {
                Some(z) => Some(z(x)),
                None => None,
            },
            None => None,
        }
    }

    fn lift_a2<F>(self, other: Option<X>, f: F) -> (r: Option<B>) where F: FnOnce(A, X) -> B + 'a
        ensures
            <Self as Apply<'a, X, B>>::lift_a2_ensures(self, other, spec_of2(f), r),
    {
        match self {
            Some(a_u) => match other {
                Some(b_u) => {
                    assert(<Self as Apply<'a, X, B>>::lift_a2_applies_to(&self, &other, a_u, b_u));
                    Some(f(a_u, b_u))
                },
                None => None,
            },
            None => None,
        }
    }
}

impl<'a, A, E, X: 'a, B: 'a> Apply<'a, X, B> for Result<A, E> {
    open spec fn ap_requires(&self, f: &Result<X, E>) -> bool where X: FnOnce(A) -> B {
        match (*self, *f) {
            (Ok(a), Ok(z)) => z.requires((a,)),
            _ => true,
        }
    }

    /// The error of `self` where it has one, else the error of `f`, else `Ok` of the
    /// function's result.
    open spec fn ap_ensures(self, f: Result<X, E>, r: Result<B, E>) -> bool where
        X: FnOnce(A) -> B,
     {
        match (self, f) {
            (Ok(a), Ok(z)) => r matches Ok(b) && z.ensures((a,), b),
            (Ok(_), Err(e)) => r == Err::<B, E>(e),
            (Err(e), _) => r == Err::<B, E>(e),
        }
    }

    open spec fn lift_a2_applies_to(&self, other: &Result<X, E>, a: A, x: X) -> bool {
        *self == Ok::<A, E>(a) && *other == Ok::<X, E>(x)
    }

    /// The error of `self` where it has one, else the error of `other`, else `Ok` of the
    /// function's result.
    open spec fn lift_a2_ensures(
        self,
        other: Result<X, E>,
        f: Morphism<(A, X), B>,
        r: Result<B, E>,
    ) -> bool {
        match (self, other) {
            (Ok(a), Ok(x)) => r matches Ok(b) && (f.post)((a, x), b),
            (Ok(_), Err(e)) => r == Err::<B, E>(e),
            (Err(e), _) => r == Err::<B, E>(e),
        }
    }

    proof fn lemma_lift_a2_refined(
        self,
        other: Result<X, E>,
        f: Morphism<(A, X), B>,
        g: Morphism<(A, X), B>,
        r: Result<B, E>,
    ) {
    }

    fn ap(self, f: Result<X, E>) -> (r: Result<B, E>) where X: FnOnce(A) -> B
        ensures
            <Self as Apply<'a, X, B>>::ap_ensures(self, f, r),
    {
        match self {
            Ok(x) => match f {
                Ok(z) => Ok(z(x)),
                Err(e) => Err(e),
            },
            Err(e) => Err(e),
        }
    }

    fn lift_a2<F>(self, other: Result<X, E>, f: F) -> (r: Result<B, E>) where
        F: FnOnce(A, X) -> B + 'a,
        ensures
            <Self as Apply<'a, X, B>>::lift_a2_ensures(self, other, spec_of2(f), r),
    {
        match self {
            Ok(a_u) => match other {
                Ok(b_u) => {
                    assert(<Self as Apply<'a, X, B>>::lift_a2_applies_to(&self, &other, a_u, b_u));
                    Ok(f(a_u, b_u))
                },
                Err(e) => Err(e),
            },
            Err(e) => Err(e),
        }
    }
}

/// Identity on `Option`: applying a wrapped function that returns its argument changes
/// nothing.
pub proof fn lemma_option_ap_identity<'a, A: 'a, X: FnOnce(A) -> A + 'a>(
    v: Option<A>,
    id: Option<X>,
    r: Option<A>,
)
    requires
        id matches Some(z) && forall|a: A, b: A| #[trigger] z.ensures((a,), b) ==> b == a,
        <Option<A> as Apply<'a, X, A>>::ap_ensures(v, id, r),
    ensures
        r == v,
{
}

/// Homomorphism on `Option`: applying a wrapped function to a wrapped value wraps what the
/// function returns on the value.
pub proof fn lemma_option_ap_homomorphism<'a, A, B: 'a, X: FnOnce(A) -> B + 'a>(
    x: A,
    f: X,
    r: Option<B>,
)
    requires
        <Option<A> as Apply<'a, X, B>>::ap_ensures(Some(x), Some(f), r),
    ensures
        r matches Some(b) && f.ensures((x,), b),
{
}

/// Identity on `Result`: applying a wrapped function that returns its argument changes
/// nothing.
pub proof fn lemma_result_ap_identity<'a, A: 'a, E, X: FnOnce(A) -> A + 'a>(
    v: Result<A, E>,
    id: Result<X, E>,
    r: Result<A, E>,
)
    requires
        id matches Ok(z) && forall|a: A, b: A| #[trigger] z.ensures((a,), b) ==> b == a,
        <Result<A, E> as Apply<'a, X, A>>::ap_ensures(v, id, r),
    ensures
        r == v,
{
}

/// Homomorphism on `Result`: applying a wrapped function to a wrapped value wraps what the
/// function returns on the value.
pub proof fn lemma_result_ap_homomorphism<'a, A, E, B: 'a, X: FnOnce(A) -> B + 'a>(
    x: A,
    f: X,
    r: Result<B, E>,
)
    requires
        <Result<A, E> as Apply<'a, X, B>>::ap_ensures(Ok(x), Ok(f), r),
    ensures
        r matches Ok(b) && f.ensures((x,), b),
{
}

/// `lift_a2` on `Option` is two applications in a row. Where `curried` holds a function that
/// takes the first argument of `f` and returns a function that takes the second, applying
/// `curried` to `a` and what comes out to `c` gives what `a.lift_a2(c, f)` gives.
pub proof fn lemma_option_lift_a2_is_two_aps<
    'a,
    A: 'a,
    C: 'a,
    B: 'a,
    G: FnOnce(C) -> B + 'a,
    H: FnOnce(A) -> G + 'a,
>(
    a: Option<A>,
    c: Option<C>,
    f: Morphism<(A, C), B>,
    curried: Option<H>,
    partial: Option<G>,
    r: Option<B>,
)
    requires
        curried matches Some(h) && forall|x: A, g: G, y: C, z: B|
            #[trigger] h.ensures((x,), g) && #[trigger] g.ensures((y,), z) ==> (f.post)((x, y), z),
        <Option<A> as Apply<'a, H, G>>::ap_ensures(a, curried, partial),
        <Option<C> as Apply<'a, G, B>>::ap_ensures(c, partial, r),
    ensures
        <Option<A> as Apply<'a, C, B>>::lift_a2_ensures(a, c, f, r),
{
}

/// `lift_a2` on `Result` is two applications in a row, unless both operands have failed:
/// then `lift_a2` returns the error of the first operand, and the two applications return
/// the error of the second.
pub proof fn lemma_result_lift_a2_is_two_aps<
    'a,
    A: 'a,
    E,
    C: 'a,
    B: 'a,
    G: FnOnce(C) -> B + 'a,
    H: FnOnce(A) -> G + 'a,
>(
    a: Result<A, E>,
    c: Result<C, E>,
    f: Morphism<(A, C), B>,
    curried: Result<H, E>,
    partial: Result<G, E>,
    r: Result<B, E>,
)
    requires
        !(a is Err && c is Err),
        curried matches Ok(h) && forall|x: A, g: G, y: C, z: B|
            #[trigger] h.ensures((x,), g) && #[trigger] g.ensures((y,), z) ==> (f.post)((x, y), z),
        <Result<A, E> as Apply<'a, H, G>>::ap_ensures(a, curried, partial),
        <Result<C, E> as Apply<'a, G, B>>::ap_ensures(c, partial, r),
    ensures
        <Result<A, E> as Apply<'a, C, B>>::lift_a2_ensures(a, c, f, r),
{
}

} // verus!
