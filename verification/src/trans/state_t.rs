//! State passing on top of any monad.
use vstd::prelude::*;
use crate::monad::Monad;
use crate::monoid::Monoid;
use crate::morphism::{spec_of, Morphism};
use crate::state::{FnRunner, Runner};
use crate::trans::result_t::{lemma_result_t_bind_over_writer, ResultT};
use crate::writer::Writer;

verus! {

/// A `State` transformer monad parameterized by the state type (S) and the inner monad (M)
#[verifier::reject_recursive_types(S)]
#[verifier::reject_recursive_types(M)]
pub struct StateT<'a, S, M> {
    /// The "stateful" function which return a Monad whose Unwrapped value is the tuple (_, S)
    pub runner: Box<dyn Runner<S, M> + 'a>,
}

impl<'a, S: 'a, M: 'a> StateT<'a, S, M> {
    /// The states that `self` may be run from.
    pub open spec fn pre(&self, s: S) -> bool {
        self.runner.pre(s)
    }

    /// `m` is an action of the inner monad that `self` may return when run from `s`.
    pub open spec fn post(&self, s: S, m: M) -> bool {
        self.runner.post(s, m)
    }

    /// `self` may be run wherever `f` may be called, and returns only what `f` could return:
    /// it behaves as the transition function `f`.
    pub open spec fn runs(self, f: Morphism<S, M>) -> bool {
        &&& forall|s: S| (f.pre)(s) ==> #[trigger] self.pre(s)
        &&& forall|s: S, m: M| #[trigger] self.post(s, m) ==> (f.post)(s, m)
    }

    /// A state that behaves as `g` behaves as every transition function that `g` refines.
    pub proof fn lemma_runs_refined(self, f: Morphism<S, M>, g: Morphism<S, M>)
        requires
            f.refined_by(g),
            self.runs(g),
        ensures
            self.runs(f),
    {
        assert forall|s: S| (f.pre)(s) implies #[trigger] self.pre(s) by {
            assert((g.pre)(s));
        }
        assert forall|s: S, m: M| #[trigger] self.post(s, m) implies (f.post)(s, m) by {
            assert((g.post)(s, m));
        }
    }

    pub fn new<F>(runner: F) -> (r: Self) where F: FnOnce(S) -> M + 'a
        ensures
            r.runs(spec_of(runner)),
    {
        Self { runner: Box::new(FnRunner { f: runner }) }
    }

    pub fn execute(self, state: S) -> (r: M)
        requires
            self.pre(state),
        ensures
            self.post(state, r),
    {
        self.runner.run(state)
    }

    /// The contract of the function that pairs a value with the state `s`, in the context of
    /// `N`.
    pub open spec fn lift_step<N, B: 'a>(s: S) -> Morphism<B, <N as Monad<'a, (B, S)>>::Wrapped> where
        N: Monad<'a, (B, S), Unwrapped = B> + 'a,
     {
        Morphism {
            pre: |b: B| true,
            post: |b: B, w: <N as Monad<'a, (B, S)>>::Wrapped|
                <N as Monad<'a, (B, S)>>::of_ensures((b, s), w),
        }
    }

    /// The transition function of `lift(base)`: from every state that `base` can be bound
    /// in, the action `base` with the state beside its value.
    pub open spec fn lifted<N, B: 'a>(base: N) -> Morphism<
        S,
        <N as Monad<'a, (B, S)>>::Wrapped,
    > where N: Monad<'a, (B, S), Unwrapped = B> + 'a {
        Morphism {
            pre: |s: S| true,
            post: |s: S, w: <N as Monad<'a, (B, S)>>::Wrapped|
                base.bind_ensures(Self::lift_step::<N, B>(s), w),
        }
    }

    /// Lifts an action of the inner monad into the stateful layer: the state is threaded
    /// through unchanged.
    pub fn lift<N, B: 'a>(base: N) -> (r: StateT<'a, S, <N as Monad<'a, (B, S)>>::Wrapped>) where
        N: Monad<'a, (B, S), Unwrapped = B> + 'a,

        ensures
            r.runs(Self::lifted::<N, B>(base)),
    {
        let run = move |s: S| -> (w: <N as Monad<'a, (B, S)>>::Wrapped)
            ensures
                base.bind_ensures(Self::lift_step::<N, B>(s), w),
            {
                let pair = move |a: B| -> (w: <N as Monad<'a, (B, S)>>::Wrapped)
                    ensures
                        <N as Monad<'a, (B, S)>>::of_ensures((a, s), w),
                    { N::of((a, s)) };
                let w = base.bind(pair);
                proof {
                    base.lemma_bind_refined(Self::lift_step::<N, B>(s), spec_of(pair), w);
                }
                w
            };
        let r = StateT::new(run);
        proof {
            let m = Self::lifted::<N, B>(base);
            assert(m.refined_by(spec_of(run)));
            r.lemma_runs_refined(m, spec_of(run));
        }
        r
    }
}

impl<'a, S: 'a, M: 'a> StateT<'a, S, M> {
    /// The contract of the function that `bind` hands to the inner monad, where `f` is the
    /// contract of the function given to `bind`: from a value and a state, the action that
    /// the state transformer returned by `f` for the value returns from the state.
    pub open spec fn bind_step<A: 'a, B: 'a>(
        f: Morphism<A, StateT<'a, S, <M as Monad<'a, (B, S)>>::Wrapped>>,
    ) -> Morphism<(A, S), <M as Monad<'a, (B, S)>>::Wrapped> where
        M: Monad<'a, (B, S), Unwrapped = (A, S)>,
     {
        Morphism {
            pre: |v: (A, S)|
                (f.pre)(v.0) && forall|t: StateT<'a, S, <M as Monad<'a, (B, S)>>::Wrapped>|
                    #[trigger] (f.post)(v.0, t) ==> t.pre(v.1),
            post: |v: (A, S), w: <M as Monad<'a, (B, S)>>::Wrapped|
                exists|t: StateT<'a, S, <M as Monad<'a, (B, S)>>::Wrapped>|
                    #[trigger] (f.post)(v.0, t) && t.post(v.1, w),
        }
    }

    /// A finer function gives a finer step.
    pub proof fn lemma_bind_step_refined<A: 'a, B: 'a>(
        f: Morphism<A, StateT<'a, S, <M as Monad<'a, (B, S)>>::Wrapped>>,
        g: Morphism<A, StateT<'a, S, <M as Monad<'a, (B, S)>>::Wrapped>>,
    ) where M: Monad<'a, (B, S), Unwrapped = (A, S)>
        requires
            f.refined_by(g),
        ensures
            Self::bind_step::<A, B>(f).refined_by(Self::bind_step::<A, B>(g)),
    {
        let sf = Self::bind_step::<A, B>(f);
        let sg = Self::bind_step::<A, B>(g);
        assert forall|v: (A, S)| #[trigger] (sf.pre)(v) implies (sg.pre)(v) by {
            assert((f.pre)(v.0));
            assert forall|t: StateT<'a, S, <M as Monad<'a, (B, S)>>::Wrapped>| #[trigger]
                (g.post)(v.0, t) implies t.pre(v.1) by {
                assert((f.post)(v.0, t));
            }
        }
        assert forall|v: (A, S), w: <M as Monad<'a, (B, S)>>::Wrapped| #[trigger]
            (sg.post)(v, w) implies (sf.post)(v, w) by {
            let t = choose|t: StateT<'a, S, <M as Monad<'a, (B, S)>>::Wrapped>|
                #[trigger] (g.post)(v.0, t) && t.post(v.1, w);
            assert((f.post)(v.0, t) && t.post(v.1, w));
        }
    }

    /// The transition function of `self.bind(f)`: `self` runs, and the action it returns is
    /// bound, in the inner monad, to the step that [`StateT::bind_step`] describes. Where the
    /// inner monad has failed, it hands no value on and the step is skipped.
    pub open spec fn bound<A: 'a, B: 'a>(
        self,
        f: Morphism<A, StateT<'a, S, <M as Monad<'a, (B, S)>>::Wrapped>>,
    ) -> Morphism<S, <M as Monad<'a, (B, S)>>::Wrapped> where
        M: Monad<'a, (B, S), Unwrapped = (A, S)>,
     {
        Morphism {
            pre: |s: S|
                self.pre(s) && forall|m: M, v: (A, S)|
                    #[trigger] self.post(s, m) && #[trigger] m.bind_applies_to(v) ==> (
                    Self::bind_step::<A, B>(f).pre)(v),
            post: |s: S, w: <M as Monad<'a, (B, S)>>::Wrapped|
                exists|m: M|
                    #[trigger] self.post(s, m) && m.bind_ensures(Self::bind_step::<A, B>(f), w),
        }
    }

    /// Binding a function of a finer contract gives a finer transition function.
    pub proof fn lemma_bound_refined<A: 'a, B: 'a>(
        self,
        f: Morphism<A, StateT<'a, S, <M as Monad<'a, (B, S)>>::Wrapped>>,
        g: Morphism<A, StateT<'a, S, <M as Monad<'a, (B, S)>>::Wrapped>>,
    ) where M: Monad<'a, (B, S), Unwrapped = (A, S)>
        requires
            f.refined_by(g),
        ensures
            self.bound::<A, B>(f).refined_by(self.bound::<A, B>(g)),
    {
        let mf = self.bound::<A, B>(f);
        let mg = self.bound::<A, B>(g);
        let sf = Self::bind_step::<A, B>(f);
        let sg = Self::bind_step::<A, B>(g);
        Self::lemma_bind_step_refined::<A, B>(f, g);
        assert forall|s: S| #[trigger] (mf.pre)(s) implies (mg.pre)(s) by {
            assert forall|m: M, v: (A, S)|
                #[trigger] self.post(s, m) && #[trigger] m.bind_applies_to(v) implies (sg.pre)(
                v,
            ) by {
                assert((sf.pre)(v));
            }
        }
        assert forall|s: S, w: <M as Monad<'a, (B, S)>>::Wrapped| #[trigger]
            (mg.post)(s, w) implies (mf.post)(s, w) by {
            let m = choose|m: M| #[trigger] self.post(s, m) && m.bind_ensures(sg, w);
            m.lemma_bind_refined(sf, sg, w);
            assert(self.post(s, m) && m.bind_ensures(sf, w));
        }
    }
}

impl<'a, A: 'a, B: 'a, S: 'a, M: 'a + Monad<'a, (B, S), Unwrapped = (A, S)>> Monad<
    'a,
    B,
> for StateT<'a, S, M> {
    type Unwrapped = A;

    type Wrapped = StateT<'a, S, <M as Monad<'a, (B, S)>>::Wrapped>;

    /// The function is called when the state transformer runs, not before.
    open spec fn bind_applies_to(&self, a: A) -> bool {
        false
    }

    open spec fn bind_ensures(
        self,
        f: Morphism<A, StateT<'a, S, <M as Monad<'a, (B, S)>>::Wrapped>>,
        r: StateT<'a, S, <M as Monad<'a, (B, S)>>::Wrapped>,
    ) -> bool {
        r.runs(self.bound::<A, B>(f))
    }

    /// From every state, `r` returns `value` beside the state, in the minimal context of
    /// the inner monad.
    open spec fn of_ensures(
        value: B,
        r: StateT<'a, S, <M as Monad<'a, (B, S)>>::Wrapped>,
    ) -> bool {
        r.runs(
            Morphism {
                pre: |s: S| true,
                post: |s: S, w: <M as Monad<'a, (B, S)>>::Wrapped|
                    <M as Monad<'a, (B, S)>>::of_ensures((value, s), w),
            },
        )
    }

    proof fn lemma_bind_refined(
        self,
        f: Morphism<A, StateT<'a, S, <M as Monad<'a, (B, S)>>::Wrapped>>,
        g: Morphism<A, StateT<'a, S, <M as Monad<'a, (B, S)>>::Wrapped>>,
        r: StateT<'a, S, <M as Monad<'a, (B, S)>>::Wrapped>,
    ) {
        self.lemma_bound_refined::<A, B>(f, g);
        r.lemma_runs_refined(self.bound::<A, B>(f), self.bound::<A, B>(g));
    }

    fn bind<F>(self, f: F) -> (r: StateT<'a, S, <M as Monad<'a, (B, S)>>::Wrapped>) where
        F: FnOnce(A) -> StateT<'a, S, <M as Monad<'a, (B, S)>>::Wrapped> + 'a,
        ensures
            r.runs(self.bound::<A, B>(spec_of(f))),
    {
        let ghost step = StateT::<'a, S, M>::bind_step::<A, B>(spec_of(f));
        let run = move |s: S| -> (w: <M as Monad<'a, (B, S)>>::Wrapped)
            requires
                self.pre(s),
                forall|m: M, v: (A, S)|
                    #[trigger] self.post(s, m) && #[trigger] m.bind_applies_to(v) ==> (step.pre)(v),
            ensures
                exists|m: M| #[trigger] self.post(s, m) && m.bind_ensures(step, w),
            {
                let m = self.execute(s);
                let chain_fun = move |v: (A, S)| -> (w: <M as Monad<'a, (B, S)>>::Wrapped)
                    requires
                        f.requires((v.0,)),
                        forall|t: StateT<'a, S, <M as Monad<'a, (B, S)>>::Wrapped>| #[trigger]
                            f.ensures((v.0,), t) ==> t.pre(v.1),
                    ensures
                        exists|t: StateT<'a, S, <M as Monad<'a, (B, S)>>::Wrapped>|
                            #[trigger] f.ensures((v.0,), t) && t.post(v.1, w),
                    {
                        let (a1, s1) = v;
                        let t = f(a1);
                        let w = t.execute(s1);
                        assert(f.ensures((v.0,), t) && t.post(v.1, w));
                        w
                    };
                proof {
                    assert forall|v: (A, S)| #[trigger] (step.pre)(v) implies chain_fun.requires(
                        (v,),
                    ) by {
                        assert((spec_of(f).pre)(v.0));
                        assert forall|t: StateT<'a, S, <M as Monad<'a, (B, S)>>::Wrapped>|
                            #[trigger] f.ensures((v.0,), t) implies t.pre(v.1) by {
                            assert((spec_of(f).post)(v.0, t));
                        }
                    }
                    assert forall|v: (A, S)| #[trigger] m.bind_applies_to(v) implies chain_fun.requires(
                        (v,),
                    ) by {
                        assert(self.post(s, m) && m.bind_applies_to(v));
                        assert((step.pre)(v));
                    }
                }
                let w = m.bind(chain_fun);
                proof {
                    assert forall|v: (A, S), w: <M as Monad<'a, (B, S)>>::Wrapped|
                        chain_fun.ensures((v,), w) implies #[trigger] (step.post)(v, w) by {
                        let t = choose|t: StateT<'a, S, <M as Monad<'a, (B, S)>>::Wrapped>|
                            #[trigger] f.ensures((v.0,), t) && t.post(v.1, w);
                        assert((spec_of(f).post)(v.0, t) && t.post(v.1, w));
                    }
                    assert(step.refined_by(spec_of(chain_fun)));
                    m.lemma_bind_refined(step, spec_of(chain_fun), w);
                    assert(self.post(s, m) && m.bind_ensures(step, w));
                }
                w
            };
        let r = StateT::new(run);
        proof {
            let m = self.bound::<A, B>(spec_of(f));
            assert forall|s: S, w: <M as Monad<'a, (B, S)>>::Wrapped|
                run.ensures((s,), w) implies #[trigger] (m.post)(s, w) by {
                let mm = choose|mm: M| #[trigger] self.post(s, mm) && mm.bind_ensures(step, w);
                assert(self.post(s, mm) && mm.bind_ensures(step, w));
            }
            assert(m.refined_by(spec_of(run)));
            r.lemma_runs_refined(m, spec_of(run));
        }
        r
    }

    fn of(value: B) -> (r: StateT<'a, S, <M as Monad<'a, (B, S)>>::Wrapped>)
        ensures
            <Self as Monad<'a, B>>::of_ensures(value, r),
    {
        let run = move |s: S| -> (w: <M as Monad<'a, (B, S)>>::Wrapped)
            ensures
                <M as Monad<'a, (B, S)>>::of_ensures((value, s), w),
            { M::of((value, s)) };
        let r = StateT::new(run);
        proof {
            let m = Morphism {
                pre: |s: S| true,
                post: |s: S, w: <M as Monad<'a, (B, S)>>::Wrapped|
                    <M as Monad<'a, (B, S)>>::of_ensures((value, s), w),
            };
            assert(m.refined_by(spec_of(run)));
            r.lemma_runs_refined(m, spec_of(run));
        }
        r
    }
}

/// State over failure over a log: where the first stage, run from `s`, can only fail with
/// the error `e` and the log `log`, the two stages bound together, run from `s`, fail with
/// `e` and the same log. The stage that follows is skipped, so nothing of it is in the log,
/// and no state comes out.
pub proof fn lemma_state_t_bind_after_failure<'a, S: 'a, A: 'a, B: 'a, E: 'a, W: Monoid + 'a>(
    first: StateT<'a, S, ResultT<Writer<Result<(A, S), E>, W>>>,
    f: Morphism<A, StateT<'a, S, ResultT<Writer<Result<(B, S), E>, W>>>>,
    both: StateT<'a, S, ResultT<Writer<Result<(B, S), E>, W>>>,
    s: S,
    e: E,
    log: W::V,
    out: ResultT<Writer<Result<(B, S), E>, W>>,
)
    requires
        <StateT<'a, S, ResultT<Writer<Result<(A, S), E>, W>>> as Monad<'a, B>>::bind_ensures(
            first,
            f,
            both,
        ),
        forall|m: ResultT<Writer<Result<(A, S), E>, W>>| #[trigger]
            first.post(s, m) ==> m.runner.value() == Err::<(A, S), E>(e) && m.runner.log() == log,
        both.post(s, out),
    ensures
        out.runner.value() == Err::<(B, S), E>(e),
        out.runner.log() == log,
{
    let step = StateT::<'a, S, ResultT<Writer<Result<(A, S), E>, W>>>::bind_step::<A, B>(f);
    let bound = first.bound::<A, B>(f);
    assert((bound.post)(s, out));
    let m = choose|m: ResultT<Writer<Result<(A, S), E>, W>>|
        #[trigger] first.post(s, m) && m.bind_ensures(step, out);
    lemma_result_t_bind_over_writer::<(A, S), (B, S), E, W>(m, step, out);
}

} // verus!
