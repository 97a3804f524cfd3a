//! Early exit on failure, on top of any monad.
use vstd::prelude::*;
use crate::monad::Monad;
use crate::monoid::Monoid;
use crate::morphism::{spec_of, Morphism};
use crate::writer::Writer;

verus! {

/// A monad `M` whose value is a `Result`. Binding goes on with the value of an `Ok` and stops
/// at the first `Err`, which is handed on in the context of `M`; what `M` itself carries (a
/// log, an absence) is kept in either case.
pub struct ResultT<M> {
    pub runner: M,
}

impl<'a, M> ResultT<M> {
    pub fn new(runner: M) -> (r: Self)
        ensures
            r.runner == runner,
    {
        Self { runner }
    }

    pub fn execute(self) -> (r: M)
        ensures
            r == self.runner,
    {
        self.runner
    }

    /// The contract of the function that wraps a value as `Ok` in the context of `M`.
    pub open spec fn lift_step<A: 'a, E: 'a>() -> Morphism<
        A,
        <M as Monad<'a, Result<A, E>>>::Wrapped,
    > where M: Monad<'a, Result<A, E>, Unwrapped = A> {
        Morphism {
            pre: |a: A| true,
            post: |a: A, w: <M as Monad<'a, Result<A, E>>>::Wrapped|
                <M as Monad<'a, Result<A, E>>>::of_ensures(Ok(a), w),
        }
    }

    /// Wraps the value of the action `base` as `Ok`.
    pub fn lift<A: 'a, E: 'a>(base: M) -> (r: ResultT<<M as Monad<'a, Result<A, E>>>::Wrapped>) where
        M: Monad<'a, Result<A, E>, Unwrapped = A>,

        ensures
            base.bind_ensures(Self::lift_step::<A, E>(), r.runner),
    {
        let wrap = |a: A| -> (w: <M as Monad<'a, Result<A, E>>>::Wrapped)
            ensures
                <M as Monad<'a, Result<A, E>>>::of_ensures(Ok(a), w),
            { M::of(Result::Ok(a)) };
        let out = base.bind(wrap);
        proof {
            base.lemma_bind_refined(Self::lift_step::<A, E>(), spec_of(wrap), out);
        }
        ResultT { runner: out }
    }

    /// The contract of the function that `bind` hands to the monad underneath, where `f` is
    /// the contract of the function given to `bind`: on `Ok(a)` what `f` returns on `a`, on
    /// `Err(e)` that error in the context of `M`.
    pub open spec fn bind_step<A: 'a, B: 'a, E: 'a>(
        f: Morphism<A, ResultT<<M as Monad<'a, Result<B, E>>>::Wrapped>>,
    ) -> Morphism<Result<A, E>, <M as Monad<'a, Result<B, E>>>::Wrapped> where
        M: Monad<'a, Result<B, E>, Unwrapped = Result<A, E>>,
     {
        Morphism {
            pre: |r: Result<A, E>| r matches Ok(a) ==> (f.pre)(a),
            post: |r: Result<A, E>, w: <M as Monad<'a, Result<B, E>>>::Wrapped|
                match r {
                    Ok(a) => (f.post)(a, ResultT { runner: w }),
                    Err(e) => <M as Monad<'a, Result<B, E>>>::of_ensures(Err(e), w),
                },
        }
    }

    /// A finer function gives a finer step.
    pub proof fn lemma_bind_step_refined<A: 'a, B: 'a, E: 'a>(
        f: Morphism<A, ResultT<<M as Monad<'a, Result<B, E>>>::Wrapped>>,
        g: Morphism<A, ResultT<<M as Monad<'a, Result<B, E>>>::Wrapped>>,
    ) where M: Monad<'a, Result<B, E>, Unwrapped = Result<A, E>>
        requires
            f.refined_by(g),
        ensures
            Self::bind_step::<A, B, E>(f).refined_by(Self::bind_step::<A, B, E>(g)),
    {
        let sf = Self::bind_step::<A, B, E>(f);
        let sg = Self::bind_step::<A, B, E>(g);
        assert forall|r: Result<A, E>| #[trigger] (sf.pre)(r) implies (sg.pre)(r) by {
            if let Ok(a) = r {
                assert((f.pre)(a));
            }
        }
        assert forall|r: Result<A, E>, w: <M as Monad<'a, Result<B, E>>>::Wrapped| #[trigger]
            (sg.post)(r, w) implies (sf.post)(r, w) by {
            if let Ok(a) = r {
                assert((g.post)(a, ResultT { runner: w }));
            }
        }
    }

    /// Goes on with `f` where the value underneath is `Ok`, and short-circuits on `Err`: the
    /// monad underneath is bound to the step that [`ResultT::bind_step`] describes.
    pub fn bind<F, A: 'a, B: 'a, E: 'a>(self, f: F) -> (r: ResultT<
        <M as Monad<'a, Result<B, E>>>::Wrapped,
    >) where
        M: Monad<'a, Result<B, E>, Unwrapped = Result<A, E>>,
        F: FnOnce(A) -> ResultT<<M as Monad<'a, Result<B, E>>>::Wrapped> + 'a,

        requires
            forall|a: A| #[trigger] self.runner.bind_applies_to(Ok(a)) ==> f.requires((a,)),
        ensures
            self.runner.bind_ensures(Self::bind_step::<A, B, E>(spec_of(f)), r.runner),
    {
        let step = move |r: Result<A, E>| -> (w: <M as Monad<'a, Result<B, E>>>::Wrapped)
            requires
                r matches Ok(a) ==> f.requires((a,)),
            ensures
                match r {
                    Ok(a) => f.ensures((a,), ResultT { runner: w }),
                    Err(e) => <M as Monad<'a, Result<B, E>>>::of_ensures(Err(e), w),
                },
            {
                match r {
                    Ok(ok) => f(ok).runner,
                    Err(err) => M::of(Result::Err(err)),
                }
            };
        let ghost inner = self.runner;
        let out = self.runner.bind(step);
        proof {
            inner.lemma_bind_refined(Self::bind_step::<A, B, E>(spec_of(f)), spec_of(step), out);
        }
        ResultT { runner: out }
    }
}

/// `ResultT` is a monad wherever the monad underneath holds a `Result`. The first bound on `M`
/// only names the `Result` that `M` holds; the second is the one that is bound.
impl<'a, A: 'a, B: 'a, E: 'a, M> Monad<'a, B> for ResultT<M> where
    M: Monad<'a, (), Unwrapped = Result<A, E>>,
    M: Monad<'a, Result<B, E>, Unwrapped = Result<A, E>>,
 {
    type Unwrapped = A;

    type Wrapped = ResultT<<M as Monad<'a, Result<B, E>>>::Wrapped>;

    /// The values of the `Ok`s that the monad underneath hands on.
    open spec fn bind_applies_to(&self, a: A) -> bool {
        <M as Monad<'a, Result<B, E>>>::bind_applies_to(&self.runner, Ok(a))
    }

    open spec fn bind_ensures(
        self,
        f: Morphism<A, ResultT<<M as Monad<'a, Result<B, E>>>::Wrapped>>,
        r: ResultT<<M as Monad<'a, Result<B, E>>>::Wrapped>,
    ) -> bool {
        <M as Monad<'a, Result<B, E>>>::bind_ensures(
            self.runner,
            ResultT::<M>::bind_step::<A, B, E>(f),
            r.runner,
        )
    }

    /// `value` as `Ok`, in the minimal context of the monad underneath.
    open spec fn of_ensures(value: B, r: ResultT<<M as Monad<'a, Result<B, E>>>::Wrapped>) -> bool {
        <M as Monad<'a, Result<B, E>>>::of_ensures(Ok(value), r.runner)
    }

    proof fn lemma_bind_refined(
        self,
        f: Morphism<A, ResultT<<M as Monad<'a, Result<B, E>>>::Wrapped>>,
        g: Morphism<A, ResultT<<M as Monad<'a, Result<B, E>>>::Wrapped>>,
        r: ResultT<<M as Monad<'a, Result<B, E>>>::Wrapped>,
    ) {
        ResultT::<M>::lemma_bind_step_refined::<A, B, E>(f, g);
        <M as Monad<'a, Result<B, E>>>::lemma_bind_refined(
            self.runner,
            ResultT::<M>::bind_step::<A, B, E>(f),
            ResultT::<M>::bind_step::<A, B, E>(g),
            r.runner,
        );
    }

    fn bind<F>(self, f: F) -> (r: ResultT<<M as Monad<'a, Result<B, E>>>::Wrapped>) where
        F: FnOnce(A) -> ResultT<<M as Monad<'a, Result<B, E>>>::Wrapped> + 'a,
     {
        assert forall|a: A| #[trigger]
            <M as Monad<'a, Result<B, E>>>::bind_applies_to(&self.runner, Ok(a)) implies f.requires(
            (a,),
        ) by {
            assert(<Self as Monad<'a, B>>::bind_applies_to(&self, a));
        }
        ResultT::bind::<F, A, B, E>(self, f)
    }

    fn of(value: B) -> (r: ResultT<<M as Monad<'a, Result<B, E>>>::Wrapped>)
        ensures
            <Self as Monad<'a, B>>::of_ensures(value, r),
    {
        ResultT { runner: <M as Monad<'a, Result<B, E>>>::of(Result::Ok(value)) }
    }
}

/// `ResultT` over `Option`: nothing stays nothing, an error stays as it is, and the value of
/// an `Ok` goes on to the function.
pub proof fn lemma_result_t_bind_over_option<'a, A: 'a, B: 'a, E: 'a>(
    m: ResultT<Option<Result<A, E>>>,
    f: Morphism<A, ResultT<Option<Result<B, E>>>>,
    r: ResultT<Option<Result<B, E>>>,
)
    requires
        <ResultT<Option<Result<A, E>>> as Monad<'a, B>>::bind_ensures(m, f, r),
    ensures
        match m.runner {
            None => r.runner is None,
            Some(Err(e)) => r.runner == Some(Err::<B, E>(e)),
            Some(Ok(a)) => (f.post)(a, r),
        },
{
}

/// `ResultT` over `Writer`: a failure is handed on with the log as it was, and what follows
/// is skipped; after a success the log of what follows comes after the log so far.
pub proof fn lemma_result_t_bind_over_writer<'a, A: 'a, B: 'a, E: 'a, W: Monoid>(
    m: ResultT<Writer<Result<A, E>, W>>,
    f: Morphism<A, ResultT<Writer<Result<B, E>, W>>>,
    r: ResultT<Writer<Result<B, E>, W>>,
)
    requires
        <ResultT<Writer<Result<A, E>, W>> as Monad<'a, B>>::bind_ensures(m, f, r),
    ensures
        match m.runner.value() {
            Err(e) => r.runner.value() == Err::<B, E>(e) && r.runner.log() == m.runner.log(),
            Ok(a) => exists|t: ResultT<Writer<Result<B, E>, W>>|
                {
                    &&& #[trigger] (f.post)(a, t)
                    &&& r.runner.value() == t.runner.value()
                    &&& r.runner.log() == W::combine(m.runner.log(), t.runner.log())
                },
        },
{
    let step = ResultT::<Writer<Result<A, E>, W>>::bind_step::<A, B, E>(f);
    let t = choose|t: Writer<Result<B, E>, W>|
        {
            &&& #[trigger] (step.post)(m.runner.value(), t)
            &&& r.runner.value() == t.value()
            &&& r.runner.log() == W::combine(m.runner.log(), t.log())
        };
    match m.runner.value() {
        Err(e) => {
            W::lemma_empty_is_identity(m.runner.log());
        },
        Ok(a) => {
            assert((f.post)(a, ResultT { runner: t }));
        },
    }
}

} // verus!
