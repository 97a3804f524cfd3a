//! Monads: a way to link actions, and a way to bring plain values into the context.
use vstd::prelude::*;
use crate::morphism::{spec_of, Morphism};

verus! {

/// `Monad` provides a way to link actions, and a way to bring plain values into the correct
/// context.
///
/// `Monad` stands beside `Applicative` rather than on top of it and adds only what the monad
/// transformers need: `bind` and `of`. `B` is what the result holds.
pub trait Monad<'a, B: 'a>: Sized {
    type Unwrapped;

    /// Like `Self`, but has a `B` underneath.
    type Wrapped;

    /// The values that `bind` hands to its function before it returns.
    spec fn bind_applies_to(&self, a: Self::Unwrapped) -> bool;

    /// `r` is `self` bound to a function of contract `f`.
    spec fn bind_ensures(
        self,
        f: Morphism<Self::Unwrapped, Self::Wrapped>,
        r: Self::Wrapped,
    ) -> bool;

    /// `r` is `value` in the minimal context.
    spec fn of_ensures(value: B, r: Self::Wrapped) -> bool;

    /// What holds of the result for the contract `g` holds for every contract that `g` refines.
    proof fn lemma_bind_refined(
        self,
        f: Morphism<Self::Unwrapped, Self::Wrapped>,
        g: Morphism<Self::Unwrapped, Self::Wrapped>,
        r: Self::Wrapped,
    )
        requires
            f.refined_by(g),
            self.bind_ensures(g, r),
        ensures
            self.bind_ensures(f, r),
    ;

    /// Sequentially compose actions, piping values through successive function chains.
    ///
    /// The applied linking function must be unary and return data in the same type of
    /// container as the input. The chain function essentially "unwraps" a contained value,
    /// applies a linking function that returns the initial (wrapped) type, and collects them
    /// into a flat(ter) structure.
    fn bind<F>(self, f: F) -> (r: Self::Wrapped) where
        F: FnOnce(Self::Unwrapped) -> Self::Wrapped + 'a,

        requires
            forall|a: Self::Unwrapped| #[trigger] self.bind_applies_to(a) ==> f.requires((a,)),
        ensures
            self.bind_ensures(spec_of(f), r),
    ;

    /// Lift a value into a context
    fn of(value: B) -> (r: Self::Wrapped)
        ensures
            Self::of_ensures(value, r),
    ;
}

impl<'a, A, B: 'a> Monad<'a, B> for Option<A> {
    type Unwrapped = A;

    type Wrapped = Option<B>;

    open spec fn bind_applies_to(&self, a: A) -> bool {
        *self == Some(a)
    }

    /// `None` stays `None`; for `Some(a)`, what the function returns on `a`.
    open spec fn bind_ensures(self, f: Morphism<A, Option<B>>, r: Option<B>) -> bool {
        match self {
            Some(a) => (f.post)(a, r),
            None => r is None,
        }
    }

    open spec fn of_ensures(value: B, r: Option<B>) -> bool {
        r == Some(value)
    }

    proof fn lemma_bind_refined(
        self,
        f: Morphism<A, Option<B>>,
        g: Morphism<A, Option<B>>,
        r: Option<B>,
    ) {
    }

    fn bind<F>(self, f: F) -> (r: Option<B>) where F: FnOnce(A) -> Option<B> + 'a
        ensures
            match self {
                Some(a) => f.ensures((a,), r),
                None => r is None,
            },
    {
        match self {
            Some(x) => {
                assert(<Self as Monad<'a, B>>::bind_applies_to(&self, x));
                f(x)
            },
            None => None,
        }
    }

    fn of(value: B) -> (r: Option<B>)
        ensures
            r == Some(value),
    {
        Some(value)
    }
}

impl<'a, A, E, B: 'a> Monad<'a, B> for Result<A, E> {
    type Unwrapped = A;

    type Wrapped = Result<B, E>;

    open spec fn bind_applies_to(&self, a: A) -> bool {
        *self == Ok::<A, E>(a)
    }

    /// An error stays as it is; for `Ok(a)`, what the function returns on `a`.
    open spec fn bind_ensures(self, f: Morphism<A, Result<B, E>>, r: Result<B, E>) -> bool {
        match self {
            Ok(a) => (f.post)(a, r),
            Err(e) => r == Err::<B, E>(e),
        }
    }

    open spec fn of_ensures(value: B, r: Result<B, E>) -> bool {
        r == Ok::<B, E>(value)
    }

    proof fn lemma_bind_refined(
        self,
        f: Morphism<A, Result<B, E>>,
        g: Morphism<A, Result<B, E>>,
        r: Result<B, E>,
    ) {
    }

    fn bind<F>(self, f: F) -> (r: Result<B, E>) where F: FnOnce(A) -> Result<B, E> + 'a
        ensures
            match self {
                Ok(a) => f.ensures((a,), r),
                Err(e) => r == Err::<B, E>(e),
            },
    {
        match self {
            Result::Ok(x) => {
                assert(<Self as Monad<'a, B>>::bind_applies_to(&self, x));
                f(x)
            },
            Result::Err(e) => Result::Err(e),
        }
    }

    fn of(value: B) -> (r: Result<B, E>)
        ensures
            r == Ok::<B, E>(value),
    {
        Result::Ok(value)
    }
}

/// The contract of `of` as a function: it accepts every value and returns it in the minimal
/// context.
pub open spec fn of_morphism<'a, A: 'a, M: Monad<'a, A>>() -> Morphism<A, M::Wrapped> {
    Morphism { pre: |a: A| true, post: |a: A, w: M::Wrapped| M::of_ensures(a, w) }
}

/// Left identity on `Option`: `of(a).bind(f) == f(a)`.
pub proof fn lemma_option_bind_left_identity<'a, A: 'a, B: 'a>(
    a: A,
    m: Option<A>,
    f: Morphism<A, Option<B>>,
    r: Option<B>,
)
    requires
        <Option<A> as Monad<'a, A>>::of_ensures(a, m),
        <Option<A> as Monad<'a, B>>::bind_ensures(m, f, r),
    ensures
        (f.post)(a, r),
{
}

/// Right identity on `Option`: `m.bind(of) == m`.
pub proof fn lemma_option_bind_right_identity<'a, A: 'a>(m: Option<A>, r: Option<A>)
    requires
        <Option<A> as Monad<'a, A>>::bind_ensures(m, of_morphism::<A, Option<A>>(), r),
    ensures
        r == m,
{
}

/// `f`, and then `g` bound to what `f` returned: the contract of `|x| f(x).bind(g)` on
/// `Option`.
pub open spec fn option_kleisli<'a, A, B, C: 'a>(
    f: Morphism<A, Option<B>>,
    g: Morphism<B, Option<C>>,
) -> Morphism<A, Option<C>> {
    Morphism {
        pre: |a: A|
            (f.pre)(a) && forall|y: Option<B>, b: B|
                #[trigger] (f.post)(a, y) && y == Some(b) ==> #[trigger] (g.pre)(b),
        post: |a: A, w: Option<C>|
            exists|y: Option<B>|
                #[trigger] (f.post)(a, y) && <Option<B> as Monad<'a, C>>::bind_ensures(y, g, w),
    }
}

/// Associativity on `Option`: `m.bind(f).bind(g) == m.bind(|x| f(x).bind(g))`. What one side
/// may return, the other may return.
pub proof fn lemma_option_bind_associative<'a, A, B: 'a, C: 'a>(
    m: Option<A>,
    f: Morphism<A, Option<B>>,
    g: Morphism<B, Option<C>>,
    r: Option<C>,
)
    ensures
        (exists|n: Option<B>|
            #[trigger] <Option<A> as Monad<'a, B>>::bind_ensures(m, f, n) && <Option<
                B,
            > as Monad<'a, C>>::bind_ensures(n, g, r)) <==> <Option<A> as Monad<
            'a,
            C,
        >>::bind_ensures(m, option_kleisli(f, g), r),
{
    let k = option_kleisli::<A, B, C>(f, g);
    if <Option<A> as Monad<'a, C>>::bind_ensures(m, k, r) {
        match m {
            Some(a) => {
                let y = choose|y: Option<B>|
                    #[trigger] (f.post)(a, y) && <Option<B> as Monad<'a, C>>::bind_ensures(y, g, r);
                assert(<Option<A> as Monad<'a, B>>::bind_ensures(m, f, y));
            },
            None => {
                assert(<Option<A> as Monad<'a, B>>::bind_ensures(m, f, None::<B>));
                assert(<Option<B> as Monad<'a, C>>::bind_ensures(None::<B>, g, r));
            },
        }
    }
}

/// Left identity on `Result`: `of(a).bind(f) == f(a)`.
pub proof fn lemma_result_bind_left_identity<'a, A: 'a, E, B: 'a>(
    a: A,
    m: Result<A, E>,
    f: Morphism<A, Result<B, E>>,
    r: Result<B, E>,
)
    requires
        <Result<A, E> as Monad<'a, A>>::of_ensures(a, m),
        <Result<A, E> as Monad<'a, B>>::bind_ensures(m, f, r),
    ensures
        (f.post)(a, r),
{
}

/// Right identity on `Result`: `m.bind(of) == m`.
pub proof fn lemma_result_bind_right_identity<'a, A: 'a, E>(m: Result<A, E>, r: Result<A, E>)
    requires
        <Result<A, E> as Monad<'a, A>>::bind_ensures(m, of_morphism::<A, Result<A, E>>(), r),
    ensures
        r == m,
{
}

/// `f`, and then `g` bound to what `f` returned: the contract of `|x| f(x).bind(g)` on
/// `Result`.
pub open spec fn result_kleisli<'a, A, B, C: 'a, E>(
    f: Morphism<A, Result<B, E>>,
    g: Morphism<B, Result<C, E>>,
) -> Morphism<A, Result<C, E>> {
    Morphism {
        pre: |a: A|
            (f.pre)(a) && forall|y: Result<B, E>, b: B|
                #[trigger] (f.post)(a, y) && y == Ok::<B, E>(b) ==> #[trigger] (g.pre)(b),
        post: |a: A, w: Result<C, E>|
            exists|y: Result<B, E>|
                #[trigger] (f.post)(a, y) && <Result<B, E> as Monad<'a, C>>::bind_ensures(y, g, w),
    }
}

/// Associativity on `Result`: `m.bind(f).bind(g) == m.bind(|x| f(x).bind(g))`. What one side
/// may return, the other may return.
pub proof fn lemma_result_bind_associative<'a, A, B: 'a, C: 'a, E>(
    m: Result<A, E>,
    f: Morphism<A, Result<B, E>>,
    g: Morphism<B, Result<C, E>>,
    r: Result<C, E>,
)
    ensures
        (exists|n: Result<B, E>|
            #[trigger] <Result<A, E> as Monad<'a, B>>::bind_ensures(m, f, n) && <Result<
                B,
                E,
            > as Monad<'a, C>>::bind_ensures(n, g, r)) <==> <Result<A, E> as Monad<
            'a,
            C,
        >>::bind_ensures(m, result_kleisli(f, g), r),
{
    let k = result_kleisli::<A, B, C, E>(f, g);
    if <Result<A, E> as Monad<'a, C>>::bind_ensures(m, k, r) {
        match m {
            Ok(a) => {
                let y = choose|y: Result<B, E>|
                    #[trigger] (f.post)(a, y) && <Result<B, E> as Monad<'a, C>>::bind_ensures(
                        y,
                        g,
                        r,
                    );
                assert(<Result<A, E> as Monad<'a, B>>::bind_ensures(m, f, y));
            },
            Err(e) => {
                assert(<Result<A, E> as Monad<'a, B>>::bind_ensures(m, f, Err::<B, E>(e)));
                assert(<Result<B, E> as Monad<'a, C>>::bind_ensures(Err::<B, E>(e), g, r));
            },
        }
    }
}

} // verus!
