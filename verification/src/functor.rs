//! Types that can be mapped over.
use vstd::prelude::*;
use crate::morphism::{lemma_and_then_deterministic, spec_of, Morphism};

verus! {

/// The `Functor` trait represents the mathematical functor: a mapping between categories in
/// the context of category theory. In practice a functor represents a type that can be
/// mapped over.
///
/// A type `f a` is a `Functor<B>` if it provides a function `fmap` which, given any function
/// from `a` to `b`, turns an `f a` into an `f b`, preserving the structure of `f`.
pub trait Functor<'a, B: 'a>: Sized {
    /// The inner type which will be mapped over
    type Unwrapped;

    /// Target of the fmap operation. Like `Self`, but has a `B` underneath.
    type Wrapped;

    /// The values that `fmap` hands to its function before it returns.
    spec fn fmap_applies_to(&self, a: Self::Unwrapped) -> bool;

    /// `r` is `self` mapped by a function of contract `f`.
    spec fn fmap_ensures(self, f: Morphism<Self::Unwrapped, B>, r: Self::Wrapped) -> bool;

    /// What holds of the result for the contract `g` holds for every contract that `g` refines.
    proof fn lemma_fmap_refined(
        self,
        f: Morphism<Self::Unwrapped, B>,
        g: Morphism<Self::Unwrapped, B>,
        r: Self::Wrapped,
    )
        requires
            f.refined_by(g),
            self.fmap_ensures(g, r),
        ensures
            self.fmap_ensures(f, r),
    ;

    /// fmap is used to apply a function of type (a -> b) to a value of type f a, where f is a
    /// functor, to produce a value of type f b.
    fn fmap<F>(self, f: F) -> (r: Self::Wrapped) where F: Fn(Self::Unwrapped) -> B + 'a
        requires
            forall|a: Self::Unwrapped| #[trigger] self.fmap_applies_to(a) ==> f.requires((a,)),
        ensures
            self.fmap_ensures(spec_of(f), r),
    ;
}

impl<'a, A, B: 'a> Functor<'a, B> for Option<A> {
    type Unwrapped = A;

    type Wrapped = Option<B>;

    open spec fn fmap_applies_to(&self, a: A) -> bool {
        *self == Some(a)
    }

    /// `None` stays `None`; `Some(a)` becomes `Some` of a result of the function on `a`.
    open spec fn fmap_ensures(self, f: Morphism<A, B>, r: Option<B>) -> bool {
        match self {
            Some(a) => r matches Some(b) && (f.post)(a, b),
            None => r is None,
        }
    }

    proof fn lemma_fmap_refined(self, f: Morphism<A, B>, g: Morphism<A, B>, r: Option<B>) {
    }

    fn fmap<F>(self, f: F) -> (r: Option<B>) where F: Fn(A) -> B + 'a
        ensures
            match self {
                Some(a) => r matches Some(b) && f.ensures((a,), b),
                None => r is None,
            },
    {
        match self {
            Some(a) => {
                assert(<Self as Functor<'a, B>>::fmap_applies_to(&self, a));
                Some(f(a))
            },
            None => None,
        }
    }
}

impl<'a, A, E, B: 'a> Functor<'a, B> for Result<A, E> {
    type Unwrapped = A;

    type Wrapped = Result<B, E>;

    open spec fn fmap_applies_to(&self, a: A) -> bool {
        *self == Ok::<A, E>(a)
    }

    /// An error stays as it is; `Ok(a)` becomes `Ok` of a result of the function on `a`.
    open spec fn fmap_ensures(self, f: Morphism<A, B>, r: Result<B, E>) -> bool {
        match self {
            Ok(a) => r matches Ok(b) && (f.post)(a, b),
            Err(e) => r == Err::<B, E>(e),
        }
    }

    proof fn lemma_fmap_refined(self, f: Morphism<A, B>, g: Morphism<A, B>, r: Result<B, E>) {
    }

    fn fmap<F>(self, f: F) -> (r: Result<B, E>) where F: Fn(A) -> B + 'a
        ensures
            match self {
                Ok(a) => r matches Ok(b) && f.ensures((a,), b),
                Err(e) => r == Err::<B, E>(e),
            },
    {
        match self {
            Result::Ok(a) => {
                assert(<Self as Functor<'a, B>>::fmap_applies_to(&self, a));
                Result::Ok(f(a))
            },
            Result::Err(e) => Result::Err(e),
        }
    }
}

impl<'a, A, B: 'a> Functor<'a, B> for Vec<A> {
    type Unwrapped = A;

    type Wrapped = Vec<B>;

    open spec fn fmap_applies_to(&self, a: A) -> bool {
        self@.contains(a)
    }

    /// Length and order are kept: the element at `i` is a result of the function on the
    /// element at `i`.
    open spec fn fmap_ensures(self, f: Morphism<A, B>, r: Vec<B>) -> bool {
        &&& r@.len() == self@.len()
        &&& forall|i: int| 0 <= i < self@.len() ==> (f.post)(self@[i], #[trigger] r@[i])
    }

    proof fn lemma_fmap_refined(self, f: Morphism<A, B>, g: Morphism<A, B>, r: Vec<B>) {
    }

    fn fmap<F>(self, f: F) -> (r: Vec<B>) where F: Fn(A) -> B + 'a
        ensures
            r@.len() == self@.len(),
            forall|i: int| 0 <= i < self@.len() ==> f.ensures((self@[i],), #[trigger] r@[i]),
    {
        let ghost src = self@;
        let mut out: Vec<B> = Vec::new();
        assert forall|a: A| #[trigger] src.contains(a) implies f.requires((a,)) by {
            assert(<Self as Functor<'a, B>>::fmap_applies_to(&self, a));
        }
        for x in it: self.into_iter()
            invariant
                it.seq() == src,
                out@.len() == it.index(),
                forall|a: A| #[trigger] src.contains(a) ==> f.requires((a,)),
                forall|i: int| 0 <= i < out@.len() ==> f.ensures((src[i],), #[trigger] out@[i]),
        {
            assert(src.contains(x));
            out.push(f(x));
        }
        out
    }
}

/// Identity law on `Option`: `c.fmap(id) == c`.
pub proof fn lemma_option_fmap_identity<'a, A: 'a>(c: Option<A>, r: Option<A>)
    requires
        <Option<A> as Functor<'a, A>>::fmap_ensures(c, Morphism::identity(), r),
    ensures
        r == c,
{
}

/// Composition law on `Option`, for any two contracts: mapping `f` and then `g` is mapping
/// `f.and_then(g)`.
pub proof fn lemma_option_fmap_composition<'a, A, B: 'a, C: 'a>(
    c: Option<A>,
    f: Morphism<A, B>,
    g: Morphism<B, C>,
    m: Option<B>,
    r: Option<C>,
)
    requires
        <Option<A> as Functor<'a, B>>::fmap_ensures(c, f, m),
        <Option<B> as Functor<'a, C>>::fmap_ensures(m, g, r),
    ensures
        <Option<A> as Functor<'a, C>>::fmap_ensures(c, f.and_then(g), r),
{
}

/// Composition law on `Option`, for functions that have one result each:
/// `c.fmap(f).fmap(g) == c.fmap(|x| g(f(x)))`.
pub proof fn lemma_option_fmap_composition_eq<'a, A, B: 'a, C: 'a>(
    c: Option<A>,
    f: Morphism<A, B>,
    g: Morphism<B, C>,
    m: Option<B>,
    r1: Option<C>,
    r2: Option<C>,
)
    requires
        f.deterministic(),
        g.deterministic(),
        <Option<A> as Functor<'a, B>>::fmap_ensures(c, f, m),
        <Option<B> as Functor<'a, C>>::fmap_ensures(m, g, r1),
        <Option<A> as Functor<'a, C>>::fmap_ensures(c, f.and_then(g), r2),
    ensures
        r1 == r2,
{
    lemma_and_then_deterministic(f, g);
    lemma_option_fmap_composition::<A, B, C>(c, f, g, m, r1);
}

/// Identity law on `Result`: `c.fmap(id) == c`.
pub proof fn lemma_result_fmap_identity<'a, A: 'a, E>(c: Result<A, E>, r: Result<A, E>)
    requires
        <Result<A, E> as Functor<'a, A>>::fmap_ensures(c, Morphism::identity(), r),
    ensures
        r == c,
{
}

/// Composition law on `Result`, for any two contracts: mapping `f` and then `g` is mapping
/// `f.and_then(g)`.
pub proof fn lemma_result_fmap_composition<'a, A, E, B: 'a, C: 'a>(
    c: Result<A, E>,
    f: Morphism<A, B>,
    g: Morphism<B, C>,
    m: Result<B, E>,
    r: Result<C, E>,
)
    requires
        <Result<A, E> as Functor<'a, B>>::fmap_ensures(c, f, m),
        <Result<B, E> as Functor<'a, C>>::fmap_ensures(m, g, r),
    ensures
        <Result<A, E> as Functor<'a, C>>::fmap_ensures(c, f.and_then(g), r),
{
}

/// Composition law on `Result`, for functions that have one result each:
/// `c.fmap(f).fmap(g) == c.fmap(|x| g(f(x)))`.
pub proof fn lemma_result_fmap_composition_eq<'a, A, E, B: 'a, C: 'a>(
    c: Result<A, E>,
    f: Morphism<A, B>,
    g: Morphism<B, C>,
    m: Result<B, E>,
    r1: Result<C, E>,
    r2: Result<C, E>,
)
    requires
        f.deterministic(),
        g.deterministic(),
        <Result<A, E> as Functor<'a, B>>::fmap_ensures(c, f, m),
        <Result<B, E> as Functor<'a, C>>::fmap_ensures(m, g, r1),
        <Result<A, E> as Functor<'a, C>>::fmap_ensures(c, f.and_then(g), r2),
    ensures
        r1 == r2,
{
    lemma_and_then_deterministic(f, g);
    lemma_result_fmap_composition::<A, E, B, C>(c, f, g, m, r1);
}

/// Identity law on `Vec`: `c.fmap(id)` holds what `c` holds.
pub proof fn lemma_vec_fmap_identity<'a, A: 'a>(c: Vec<A>, r: Vec<A>)
    requires
        <Vec<A> as Functor<'a, A>>::fmap_ensures(c, Morphism::identity(), r),
    ensures
        r@ == c@,
{
    assert(r@ =~= c@);
}

/// Composition law on `Vec`, for any two contracts: mapping `f` and then `g` is mapping
/// `f.and_then(g)`.
pub proof fn lemma_vec_fmap_composition<'a, A, B: 'a, C: 'a>(
    c: Vec<A>,
    f: Morphism<A, B>,
    g: Morphism<B, C>,
    m: Vec<B>,
    r: Vec<C>,
)
    requires
        <Vec<A> as Functor<'a, B>>::fmap_ensures(c, f, m),
        <Vec<B> as Functor<'a, C>>::fmap_ensures(m, g, r),
    ensures
        <Vec<A> as Functor<'a, C>>::fmap_ensures(c, f.and_then(g), r),
{
    let h = f.and_then(g);
    assert forall|i: int| 0 <= i < c@.len() implies (h.post)(c@[i], #[trigger] r@[i]) by {
        assert((f.post)(c@[i], m@[i]) && (g.post)(m@[i], r@[i]));
    }
}

/// Composition law on `Vec`, for functions that have one result each:
/// `c.fmap(f).fmap(g)` holds what `c.fmap(|x| g(f(x)))` holds.
pub proof fn lemma_vec_fmap_composition_eq<'a, A, B: 'a, C: 'a>(
    c: Vec<A>,
    f: Morphism<A, B>,
    g: Morphism<B, C>,
    m: Vec<B>,
    r1: Vec<C>,
    r2: Vec<C>,
)
    requires
        f.deterministic(),
        g.deterministic(),
        <Vec<A> as Functor<'a, B>>::fmap_ensures(c, f, m),
        <Vec<B> as Functor<'a, C>>::fmap_ensures(m, g, r1),
        <Vec<A> as Functor<'a, C>>::fmap_ensures(c, f.and_then(g), r2),
    ensures
        r1@ == r2@,
{
    lemma_and_then_deterministic(f, g);
    lemma_vec_fmap_composition::<A, B, C>(c, f, g, m, r1);
    let h = f.and_then(g);
    assert forall|i: int| 0 <= i < r1@.len() implies r1@[i] == r2@[i] by {
        assert((h.post)(c@[i], r1@[i]) && (h.post)(c@[i], r2@[i]));
    }
    assert(r1@ =~= r2@);
}

} // verus!
