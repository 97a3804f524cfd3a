//! Computations that thread a state.
use vstd::prelude::*;
use crate::applicative::Applicative;
use crate::apply::Apply;
use crate::functor::Functor;
use crate::monad::Monad;
use crate::morphism::{spec_of, spec_of2, Morphism};

verus! {

/// A computation that can be run once, from a state of type `S`, and then returns an `R`.
///
/// `pre` says from which states it may be run, `post` what it may return from each.
pub trait Runner<S, R> {
    spec fn pre(&self, s: S) -> bool;

    spec fn post(&self, s: S, r: R) -> bool;

    fn run(self: Box<Self>, s: S) -> (r: R)
        requires
            self.pre(s),
        ensures
            self.post(s, r),
    ;
}

/// A function value as a [`Runner`]: it may be run where the function may be called, and
/// returns what the function returns.
pub struct FnRunner<F> {
    pub f: F,
}

impl<S, R, F: FnOnce(S) -> R> Runner<S, R> for FnRunner<F> {
    open spec fn pre(&self, s: S) -> bool {
        self.f.requires((s,))
    }

    open spec fn post(&self, s: S, r: R) -> bool {
        self.f.ensures((s,), r)
    }

    fn run(self: Box<Self>, s: S) -> (r: R)
        ensures
            self.post(s, r),
    {
        let this = *self;
        (this.f)(s)
    }
}

/// `State` describes a wrapped function that can be used to pass around some "hidden" pure
/// state.
///
/// This has numerous applications, but the primary advantage is purity. The state gets
/// passed around with the value, and the monadic DSL helps it feel more natural than passing
/// everything around by hand. It simulates a global mutable state by means of composition of
/// pure functions.
#[verifier::reject_recursive_types(S)]
#[verifier::reject_recursive_types(A)]
pub struct State<'a, S, A> {
    /// The (apparently) "stateful" function
    pub runner: Box<dyn Runner<S, (A, S)> + 'a>,
}

impl<'a, S: 'a, A: 'a> State<'a, S, A> {
    /// The states that `self` may be run from.
    pub open spec fn pre(&self, s: S) -> bool {
        self.runner.pre(s)
    }

    /// `r` is a result and a new state that `self` may return when run from `s`.
    pub open spec fn post(&self, s: S, r: (A, S)) -> bool {
        self.runner.post(s, r)
    }

    /// The transition function of `self`, as a contract.
    pub open spec fn transition(self) -> Morphism<S, (A, S)> {
        Morphism { pre: |s: S| self.pre(s), post: |s: S, r: (A, S)| self.post(s, r) }
    }

    /// `self` may be run wherever `f` may be called, and returns only what `f` could return:
    /// it behaves as the transition function `f`.
    pub open spec fn runs(self, f: Morphism<S, (A, S)>) -> bool {
        &&& forall|s: S| (f.pre)(s) ==> #[trigger] self.pre(s)
        &&& forall|s: S, r: (A, S)| #[trigger] self.post(s, r) ==> (f.post)(s, r)
    }

    /// A state that behaves as `g` behaves as every transition function that `g` refines.
    pub proof fn lemma_runs_refined(self, f: Morphism<S, (A, S)>, g: Morphism<S, (A, S)>)
        requires
            f.refined_by(g),
            self.runs(g),
        ensures
            self.runs(f),
    {
        assert forall|s: S| (f.pre)(s) implies #[trigger] self.pre(s) by {
            assert((g.pre)(s));
        }
        assert forall|s: S, r: (A, S)| #[trigger] self.post(s, r) implies (f.post)(s, r) by {
            assert((g.post)(s, r));
        }
    }

    /// Constructs a new `State` by passing in the function which uses and updates the state
    pub fn new<F>(runner: F) -> (r: Self) where F: FnOnce(S) -> (A, S) + 'a
        ensures
            r.runs(spec_of(runner)),
    {
        Self { runner: Box::new(FnRunner { f: runner }) }
    }

    /// Run a `State` by passing in some initial state to actualy run the enclosed state
    /// runner.
    pub fn execute(self, state: S) -> (r: (A, S))
        requires
            self.pre(state),
        ensures
            self.post(state, r),
    {
        self.runner.run(state)
    }

    /// The transition function of `self.fmap(f)`: `self` runs, `f` maps the result, the new
    /// state is kept.
    pub open spec fn mapped<B>(self, f: Morphism<A, B>) -> Morphism<S, (B, S)> {
        Morphism {
            pre: |s: S|
                self.pre(s) && forall|a: A, s1: S| #[trigger] self.post(s, (a, s1)) ==> (f.pre)(a),
            post: |s: S, r: (B, S)|
                exists|a: A| #[trigger] self.post(s, (a, r.1)) && (f.post)(a, r.0),
        }
    }

    /// The transition function of `self.ap(f)`: `self` runs, then `f` from the state that
    /// `self` left, and the function that `f` returned is applied to the result of `self`.
    pub open spec fn applied<X, B>(self, f: State<'a, S, X>) -> Morphism<S, (B, S)> where
        X: FnOnce(A) -> B + 'a,
     {
        Morphism {
            pre: |s: S|
                self.pre(s) && forall|a: A, s1: S| #[trigger]
                    self.post(s, (a, s1)) ==> f.pre(s1) && forall|z: X, s2: S| #[trigger]
                        f.post(s1, (z, s2)) ==> z.requires((a,)),
            post: |s: S, r: (B, S)|
                exists|a: A, s1: S, z: X|
                    #[trigger] self.post(s, (a, s1)) && #[trigger] f.post(s1, (z, r.1))
                        && z.ensures((a,), r.0),
        }
    }

    /// The transition function of `self.lift_a2(other, f)`: `self` runs, then `other` from
    /// the state that `self` left, and `f` combines the two results.
    pub open spec fn lifted<X: 'a, B>(
        self,
        other: State<'a, S, X>,
        f: Morphism<(A, X), B>,
    ) -> Morphism<S, (B, S)> {
        Morphism {
            pre: |s: S|
                self.pre(s) && forall|a: A, s1: S| #[trigger]
                    self.post(s, (a, s1)) ==> other.pre(s1) && forall|x: X, s2: S| #[trigger]
                        other.post(s1, (x, s2)) ==> (f.pre)((a, x)),
            post: |s: S, r: (B, S)|
                exists|a: A, s1: S, x: X|
                    #[trigger] self.post(s, (a, s1)) && #[trigger] other.post(s1, (x, r.1))
                        && (f.post)((a, x), r.0),
        }
    }

    /// The transition function of `self.bind(f)`: `self` runs, and the state that `f` returns
    /// for its result runs from the state that `self` left.
    pub open spec fn bound<B: 'a>(self, f: Morphism<A, State<'a, S, B>>) -> Morphism<S, (B, S)> {
        Morphism {
            pre: |s: S|
                self.pre(s) && forall|a: A, s1: S| #[trigger]
                    self.post(s, (a, s1)) ==> (f.pre)(a) && forall|t: State<'a, S, B>| #[trigger]
                        (f.post)(a, t) ==> t.pre(s1),
            post: |s: S, r: (B, S)|
                exists|a: A, s1: S, t: State<'a, S, B>|
                    #[trigger] self.post(s, (a, s1)) && #[trigger] (f.post)(a, t) && t.post(s1, r),
        }
    }
}

impl<'a, S: 'a, A: 'a, B: 'a> Functor<'a, B> for State<'a, S, A> {
    type Unwrapped = A;

    type Wrapped = State<'a, S, B>;

    /// The function is called when the state runs, not before.
    open spec fn fmap_applies_to(&self, a: A) -> bool {
        false
    }

    open spec fn fmap_ensures(self, f: Morphism<A, B>, r: State<'a, S, B>) -> bool {
        r.runs(self.mapped(f))
    }

    proof fn lemma_fmap_refined(self, f: Morphism<A, B>, g: Morphism<A, B>, r: State<'a, S, B>) {
        let mf = self.mapped(f);
        let mg = self.mapped(g);
        assert forall|s: S| #[trigger] (mf.pre)(s) implies (mg.pre)(s) by {
            assert forall|a: A, s1: S| #[trigger] self.post(s, (a, s1)) implies (g.pre)(a) by {
                assert((f.pre)(a));
            }
        }
        assert forall|s: S, o: (B, S)| #[trigger] (mg.post)(s, o) implies (mf.post)(s, o) by {
            let a = choose|a: A| #[trigger] self.post(s, (a, o.1)) && (g.post)(a, o.0);
            assert(self.post(s, (a, o.1)) && (f.post)(a, o.0));
        }
        r.lemma_runs_refined(mf, mg);
    }

    fn fmap<F>(self, f: F) -> (r: State<'a, S, B>) where F: Fn(A) -> B + 'a
        ensures
            r.runs(self.mapped(spec_of(f))),
    {
        let run = move |s: S| -> (o: (B, S))
            requires
                self.pre(s),
                forall|a: A, s1: S| #[trigger] self.post(s, (a, s1)) ==> f.requires((a,)),
            ensures
                exists|a: A| #[trigger] self.post(s, (a, o.1)) && f.ensures((a,), o.0),
            {
                let (a1, s1) = self.execute(s);
                let o = (f(a1), s1);
                assert(self.post(s, (a1, o.1)) && f.ensures((a1,), o.0));
                o
            };
        let r = State::new(run);
        proof {
            let m = self.mapped(spec_of(f));
            assert forall|s: S| #[trigger] (m.pre)(s) implies run.requires((s,)) by {
                assert forall|a: A, s1: S| #[trigger] self.post(s, (a, s1)) implies f.requires(
                    (a,),
                ) by {
                    assert((spec_of(f).pre)(a));
                }
            }
            assert forall|s: S, o: (B, S)| run.ensures((s,), o) implies #[trigger] (m.post)(
                s,
                o,
            ) by {
                let a = choose|a: A| #[trigger] self.post(s, (a, o.1)) && f.ensures((a,), o.0);
                assert(self.post(s, (a, o.1)) && (spec_of(f).post)(a, o.0));
            }
            assert(m.refined_by(spec_of(run)));
            r.lemma_runs_refined(m, spec_of(run));
        }
        r
    }
}

impl<'a, S: 'a, A: 'a, X: 'a, B: 'a> Apply<'a, X, B> for State<'a, S, A> {
    /// The wrapped function is called when the state runs, not before.
    open spec fn ap_requires(&self, f: &State<'a, S, X>) -> bool where X: FnOnce(A) -> B {
        true
    }

    open spec fn ap_ensures(self, f: State<'a, S, X>, r: State<'a, S, B>) -> bool where
        X: FnOnce(A) -> B,
     {
        r.runs(self.applied(f))
    }

    /// The function is called when the state runs, not before.
    open spec fn lift_a2_applies_to(&self, other: &State<'a, S, X>, a: A, x: X) -> bool {
        false
    }

    open spec fn lift_a2_ensures(
        self,
        other: State<'a, S, X>,
        f: Morphism<(A, X), B>,
        r: State<'a, S, B>,
    ) -> bool {
        r.runs(self.lifted(other, f))
    }

    proof fn lemma_lift_a2_refined(
        self,
        other: State<'a, S, X>,
        f: Morphism<(A, X), B>,
        g: Morphism<(A, X), B>,
        r: State<'a, S, B>,
    ) {
        let mf = self.lifted(other, f);
        let mg = self.lifted(other, g);
        assert forall|s: S| #[trigger] (mf.pre)(s) implies (mg.pre)(s) by {
            assert forall|a: A, s1: S| #[trigger] self.post(s, (a, s1)) implies other.pre(s1)
                && forall|x: X, s2: S| #[trigger] other.post(s1, (x, s2)) ==> (g.pre)((a, x)) by {
                assert forall|x: X, s2: S| #[trigger] other.post(s1, (x, s2)) implies (g.pre)(
                    (a, x),
                ) by {
                    assert((f.pre)((a, x)));
                }
            }
        }
        assert forall|s: S, o: (B, S)| #[trigger] (mg.post)(s, o) implies (mf.post)(s, o) by {
            let (a, s1, x) = choose|a: A, s1: S, x: X|
                #[trigger] self.post(s, (a, s1)) && #[trigger] other.post(s1, (x, o.1)) && (g.post)(
                    (a, x),
                    o.0,
                );
            assert(self.post(s, (a, s1)) && other.post(s1, (x, o.1)) && (f.post)((a, x), o.0));
        }
        r.lemma_runs_refined(mf, mg);
    }

    fn ap(self, f: State<'a, S, X>) -> (r: State<'a, S, B>) where X: FnOnce(A) -> B
        ensures
            r.runs(self.applied(f)),
    {
        let run = move |s: S| -> (o: (B, S))
            requires
                self.pre(s),
                forall|a: A, s1: S| #[trigger]
                    self.post(s, (a, s1)) ==> f.pre(s1) && forall|z: X, s2: S| #[trigger]
                        f.post(s1, (z, s2)) ==> z.requires((a,)),
            ensures
                exists|a: A, s1: S, z: X|
                    #[trigger] self.post(s, (a, s1)) && #[trigger] f.post(s1, (z, o.1))
                        && z.ensures((a,), o.0),
            {
                let (a1, s1) = self.execute(s);
                let (z, s2) = f.execute(s1);
                let o = (z(a1), s2);
                assert(self.post(s, (a1, s1)) && f.post(s1, (z, o.1)) && z.ensures((a1,), o.0));
                o
            };
        let r = State::new(run);
        proof {
            let m = self.applied::<X, B>(f);
            assert forall|s: S, o: (B, S)| run.ensures((s,), o) implies #[trigger] (m.post)(
                s,
                o,
            ) by {
                let (a, s1, z) = choose|a: A, s1: S, z: X|
                    #[trigger] self.post(s, (a, s1)) && #[trigger] f.post(s1, (z, o.1))
                        && z.ensures((a,), o.0);
                assert(self.post(s, (a, s1)) && f.post(s1, (z, o.1)) && z.ensures((a,), o.0));
            }
            assert(m.refined_by(spec_of(run)));
            r.lemma_runs_refined(m, spec_of(run));
        }
        r
    }

    fn lift_a2<F>(self, other: State<'a, S, X>, f: F) -> (r: State<'a, S, B>) where
        F: FnOnce(A, X) -> B + 'a,
        ensures
            r.runs(self.lifted(other, spec_of2(f))),
    {
        let run = move |s: S| -> (o: (B, S))
            requires
                self.pre(s),
                forall|a: A, s1: S| #[trigger]
                    self.post(s, (a, s1)) ==> other.pre(s1) && forall|x: X, s2: S| #[trigger]
                        other.post(s1, (x, s2)) ==> f.requires((a, x)),
            ensures
                exists|a: A, s1: S, x: X|
                    #[trigger] self.post(s, (a, s1)) && #[trigger] other.post(s1, (x, o.1))
                        && f.ensures((a, x), o.0),
            {
                let (a1, s1) = self.execute(s);
                let (a2, s2) = other.execute(s1);
                let o = (f(a1, a2), s2);
                assert(self.post(s, (a1, s1)) && other.post(s1, (a2, o.1)) && f.ensures(
                    (a1, a2),
                    o.0,
                ));
                o
            };
        let r = State::new(run);
        proof {
            let m = self.lifted(other, spec_of2(f));
            assert forall|s: S| #[trigger] (m.pre)(s) implies run.requires((s,)) by {
                assert forall|a: A, s1: S| #[trigger] self.post(s, (a, s1)) implies other.pre(s1)
                    && forall|x: X, s2: S| #[trigger]
                    other.post(s1, (x, s2)) ==> f.requires((a, x)) by {
                    assert forall|x: X, s2: S| #[trigger] other.post(s1, (x, s2)) implies f.requires(
                        (a, x),
                    ) by {
                        assert((spec_of2(f).pre)((a, x)));
                    }
                }
            }
            assert forall|s: S, o: (B, S)| run.ensures((s,), o) implies #[trigger] (m.post)(
                s,
                o,
            ) by {
                let (a, s1, x) = choose|a: A, s1: S, x: X|
                    #[trigger] self.post(s, (a, s1)) && #[trigger] other.post(s1, (x, o.1))
                        && f.ensures((a, x), o.0);
                assert(self.post(s, (a, s1)) && other.post(s1, (x, o.1)) && (spec_of2(f).post)(
                    (a, x),
                    o.0,
                ));
            }
            assert(m.refined_by(spec_of(run)));
            r.lemma_runs_refined(m, spec_of(run));
        }
        r
    }
}

impl<'a, S: 'a, A: 'a, B: 'a> Applicative<'a, B> for State<'a, S, A> {
    /// From every state, `r` returns `value` and leaves the state as it was.
    open spec fn of_ensures(value: B, r: State<'a, S, B>) -> bool {
        r.runs(Morphism::total(|s: S| (value, s)))
    }

    fn of(value: B) -> (r: State<'a, S, B>) {
        let run = move |s: S| -> (o: (B, S))
            ensures
                o == (value, s),
            { (value, s) };
        let r = State::new(run);
        proof {
            let m = Morphism::total(|s: S| (value, s));
            assert(m.refined_by(spec_of(run)));
            r.lemma_runs_refined(m, spec_of(run));
        }
        r
    }
}

impl<'a, S: 'a, A: 'a, B: 'a> Monad<'a, B> for State<'a, S, A> {
    type Unwrapped = A;

    type Wrapped = State<'a, S, B>;

    /// The function is called when the state runs, not before.
    open spec fn bind_applies_to(&self, a: A) -> bool {
        false
    }

    open spec fn bind_ensures(
        self,
        f: Morphism<A, State<'a, S, B>>,
        r: State<'a, S, B>,
    ) -> bool {
        r.runs(self.bound(f))
    }

    /// From every state, `r` returns `value` and leaves the state as it was.
    open spec fn of_ensures(value: B, r: State<'a, S, B>) -> bool {
        r.runs(Morphism::total(|s: S| (value, s)))
    }

    proof fn lemma_bind_refined(
        self,
        f: Morphism<A, State<'a, S, B>>,
        g: Morphism<A, State<'a, S, B>>,
        r: State<'a, S, B>,
    ) {
        self.lemma_bound_refined(f, g);
        r.lemma_runs_refined(self.bound(f), self.bound(g));
    }

    fn bind<F>(self, f: F) -> (r: State<'a, S, B>) where
        F: FnOnce(A) -> State<'a, S, B> + 'a,
        ensures
            r.runs(self.bound(spec_of(f))),
    {
        let run = move |s: S| -> (o: (B, S))
            requires
                self.pre(s),
                forall|a: A, s1: S| #[trigger]
                    self.post(s, (a, s1)) ==> f.requires((a,)) && forall|t: State<'a, S, B>|
                        #[trigger] f.ensures((a,), t) ==> t.pre(s1),
            ensures
                exists|a: A, s1: S, t: State<'a, S, B>|
                    #[trigger] self.post(s, (a, s1)) && #[trigger] f.ensures((a,), t) && t.post(
                        s1,
                        o,
                    ),
            {
                let (a1, s1) = self.execute(s);
                let t = f(a1);
                let o = t.execute(s1);
                assert(self.post(s, (a1, s1)) && f.ensures((a1,), t) && t.post(s1, o));
                o
            };
        let r = State::new(run);
        proof {
            let m = self.bound(spec_of(f));
            assert forall|s: S| #[trigger] (m.pre)(s) implies run.requires((s,)) by {
                assert forall|a: A, s1: S| #[trigger] self.post(s, (a, s1)) implies f.requires(
                    (a,),
                ) && forall|t: State<'a, S, B>| #[trigger] f.ensures((a,), t) ==> t.pre(s1) by {
                    assert((spec_of(f).pre)(a));
                    assert forall|t: State<'a, S, B>| #[trigger] f.ensures((a,), t) implies t.pre(
                        s1,
                    ) by {
                        assert((spec_of(f).post)(a, t));
                    }
                }
            }
            assert forall|s: S, o: (B, S)| run.ensures((s,), o) implies #[trigger] (m.post)(
                s,
                o,
            ) by {
                let (a, s1, t) = choose|a: A, s1: S, t: State<'a, S, B>|
                    #[trigger] self.post(s, (a, s1)) && #[trigger] f.ensures((a,), t) && t.post(
                        s1,
                        o,
                    );
                assert(self.post(s, (a, s1)) && (spec_of(f).post)(a, t) && t.post(s1, o));
            }
            assert(m.refined_by(spec_of(run)));
            r.lemma_runs_refined(m, spec_of(run));
        }
        r
    }

    fn of(value: B) -> (r: State<'a, S, B>) {
        let run = move |s: S| -> (o: (B, S))
            ensures
                o == (value, s),
            { (value, s) };
        let r = State::new(run);
        proof {
            let m = Morphism::total(|s: S| (value, s));
            assert(m.refined_by(spec_of(run)));
            r.lemma_runs_refined(m, spec_of(run));
        }
        r
    }
}

impl<'a, S: 'a, A: 'a> State<'a, S, A> {
    /// Binding a function of a finer contract gives a finer transition function.
    pub proof fn lemma_bound_refined<B: 'a>(
        self,
        f: Morphism<A, State<'a, S, B>>,
        g: Morphism<A, State<'a, S, B>>,
    )
        requires
            f.refined_by(g),
        ensures
            self.bound(f).refined_by(self.bound(g)),
    {
        let mf = self.bound(f);
        let mg = self.bound(g);
        assert forall|s: S| #[trigger] (mf.pre)(s) implies (mg.pre)(s) by {
            assert forall|a: A, s1: S| #[trigger] self.post(s, (a, s1)) implies (g.pre)(a)
                && forall|t: State<'a, S, B>| #[trigger] (g.post)(a, t) ==> t.pre(s1) by {
                assert((f.pre)(a));
                assert forall|t: State<'a, S, B>| #[trigger] (g.post)(a, t) implies t.pre(s1) by {
                    assert((f.post)(a, t));
                }
            }
        }
        assert forall|s: S, o: (B, S)| #[trigger] (mg.post)(s, o) implies (mf.post)(s, o) by {
            let (a, s1, t) = choose|a: A, s1: S, t: State<'a, S, B>|
                #[trigger] self.post(s, (a, s1)) && #[trigger] (g.post)(a, t) && t.post(s1, o);
            assert(self.post(s, (a, s1)) && (f.post)(a, t) && t.post(s1, o));
        }
    }
}

/// Round trip: where `st` behaves as the function that returns `v` and leaves the state as
/// it is, which is what `State::new(|s| (v, s))` ensures, `st` may be run from every state
/// `s0`, and what `execute` returns from `s0` is `(v, s0)`.
pub proof fn lemma_state_round_trip<'a, S: 'a, A: 'a>(st: State<'a, S, A>, v: A, s0: S, r: (A, S))
    requires
        st.runs(Morphism::total(|s: S| (v, s))),
        st.post(s0, r),
    ensures
        st.pre(s0),
        r == (v, s0),
{
    let f = Morphism::total(|s: S| (v, s));
    assert((f.pre)(s0));
    assert((f.post)(s0, r));
}

/// Identity law on `State`: `c.fmap(id)` behaves as `c`. It may be run from every state that
/// `c` may be run from, and returns only what `c` could return.
pub proof fn lemma_state_fmap_identity<'a, S: 'a, A: 'a>(c: State<'a, S, A>, r: State<'a, S, A>)
    requires
        <State<'a, S, A> as Functor<'a, A>>::fmap_ensures(c, Morphism::identity(), r),
    ensures
        r.runs(c.transition()),
{
    let m = c.mapped(Morphism::<A, A>::identity());
    let t = c.transition();
    assert forall|s: S| (t.pre)(s) implies #[trigger] r.pre(s) by {
        assert((m.pre)(s));
    }
    assert forall|s: S, o: (A, S)| #[trigger] r.post(s, o) implies (t.post)(s, o) by {
        assert((m.post)(s, o));
        let a = choose|a: A| #[trigger] c.post(s, (a, o.1)) && a == o.0;
        assert(o == (a, o.1));
    }
}

/// Composition law on `State`, for any two contracts: mapping `f` and then `g` is mapping
/// `f.and_then(g)`.
pub proof fn lemma_state_fmap_composition<'a, S: 'a, A: 'a, B: 'a, C: 'a>(
    c: State<'a, S, A>,
    f: Morphism<A, B>,
    g: Morphism<B, C>,
    m: State<'a, S, B>,
    r: State<'a, S, C>,
)
    requires
        <State<'a, S, A> as Functor<'a, B>>::fmap_ensures(c, f, m),
        <State<'a, S, B> as Functor<'a, C>>::fmap_ensures(m, g, r),
    ensures
        <State<'a, S, A> as Functor<'a, C>>::fmap_ensures(c, f.and_then(g), r),
{
    let h = f.and_then(g);
    let cf = c.mapped(f);
    let mg = m.mapped(g);
    let ch = c.mapped(h);
    assert forall|s: S| (ch.pre)(s) implies #[trigger] r.pre(s) by {
        assert((cf.pre)(s)) by {
            assert forall|a: A, s1: S| #[trigger] c.post(s, (a, s1)) implies (f.pre)(a) by {
                assert((h.pre)(a));
            }
        }
        assert(m.pre(s));
        assert forall|b: B, s1: S| #[trigger] m.post(s, (b, s1)) implies (g.pre)(b) by {
            assert((cf.post)(s, (b, s1)));
            let a = choose|a: A| #[trigger] c.post(s, (a, s1)) && (f.post)(a, b);
            assert((h.pre)(a));
        }
        assert((mg.pre)(s));
    }
    assert forall|s: S, o: (C, S)| #[trigger] r.post(s, o) implies (ch.post)(s, o) by {
        assert((mg.post)(s, o));
        let b = choose|b: B| #[trigger] m.post(s, (b, o.1)) && (g.post)(b, o.0);
        assert((cf.post)(s, (b, o.1)));
        let a = choose|a: A| #[trigger] c.post(s, (a, o.1)) && (f.post)(a, b);
        assert((f.post)(a, b) && (g.post)(b, o.0));
        assert((h.post)(a, o.0));
        assert(c.post(s, (a, o.1)) && (h.post)(a, o.0));
    }
}

/// Left identity on `State`: where `f` accepts `a` and returns the state `t` for it and no
/// other, `of(a).bind(f)` behaves as `t`.
pub proof fn lemma_state_bind_left_identity<'a, S: 'a, A: 'a, B: 'a>(
    a: A,
    m: State<'a, S, A>,
    f: Morphism<A, State<'a, S, B>>,
    t: State<'a, S, B>,
    r: State<'a, S, B>,
)
    requires
        <State<'a, S, A> as Monad<'a, A>>::of_ensures(a, m),
        <State<'a, S, A> as Monad<'a, B>>::bind_ensures(m, f, r),
        (f.pre)(a),
        forall|u: State<'a, S, B>| #[trigger] (f.post)(a, u) ==> u == t,
    ensures
        r.runs(t.transition()),
{
    let of = Morphism::total(|s: S| (a, s));
    let b = m.bound(f);
    let tt = t.transition();
    assert forall|s: S| (tt.pre)(s) implies #[trigger] r.pre(s) by {
        assert((of.pre)(s));
        assert forall|x: A, s1: S| #[trigger] m.post(s, (x, s1)) implies (f.pre)(x) && forall|
            u: State<'a, S, B>,
        | #[trigger] (f.post)(x, u) ==> u.pre(s1) by {
            assert((of.post)(s, (x, s1)));
        }
        assert((b.pre)(s));
    }
    assert forall|s: S, o: (B, S)| #[trigger] r.post(s, o) implies (tt.post)(s, o) by {
        assert((b.post)(s, o));
        let (x, s1, u) = choose|x: A, s1: S, u: State<'a, S, B>|
            #[trigger] m.post(s, (x, s1)) && #[trigger] (f.post)(x, u) && u.post(s1, o);
        assert((of.post)(s, (x, s1)));
    }
}

/// Right identity on `State`: `m.bind(of)` behaves as `m`.
pub proof fn lemma_state_bind_right_identity<'a, S: 'a, A: 'a>(
    m: State<'a, S, A>,
    r: State<'a, S, A>,
)
    requires
        <State<'a, S, A> as Monad<'a, A>>::bind_ensures(
            m,
            crate::monad::of_morphism::<A, State<'a, S, A>>(),
            r,
        ),
    ensures
        r.runs(m.transition()),
{
    let f = crate::monad::of_morphism::<A, State<'a, S, A>>();
    let b = m.bound(f);
    let mt = m.transition();
    assert forall|s: S| (mt.pre)(s) implies #[trigger] r.pre(s) by {
        assert forall|x: A, s1: S| #[trigger] m.post(s, (x, s1)) implies (f.pre)(x) && forall|
            u: State<'a, S, A>,
        | #[trigger] (f.post)(x, u) ==> u.pre(s1) by {
            assert forall|u: State<'a, S, A>| #[trigger] (f.post)(x, u) implies u.pre(s1) by {
                let of = Morphism::total(|s: S| (x, s));
                assert(u.runs(of));
                assert((of.pre)(s1));
            }
        }
        assert((b.pre)(s));
    }
    assert forall|s: S, o: (A, S)| #[trigger] r.post(s, o) implies (mt.post)(s, o) by {
        assert((b.post)(s, o));
        let (x, s1, u) = choose|x: A, s1: S, u: State<'a, S, A>|
            #[trigger] m.post(s, (x, s1)) && #[trigger] (f.post)(x, u) && u.post(s1, o);
        let of = Morphism::total(|s: S| (x, s));
        assert(u.runs(of));
        assert((of.post)(s1, o));
    }
}

/// `f`, and then `g` bound to the state that `f` returned: the contract of
/// `|x| f(x).bind(g)` on `State`.
pub open spec fn state_kleisli<'a, S: 'a, A: 'a, B: 'a, C: 'a>(
    f: Morphism<A, State<'a, S, B>>,
    g: Morphism<B, State<'a, S, C>>,
) -> Morphism<A, State<'a, S, C>> {
    Morphism {
        pre: |a: A| (f.pre)(a),
        post: |a: A, w: State<'a, S, C>|
            exists|t: State<'a, S, B>| #[trigger] (f.post)(a, t) && w.runs(t.bound(g)),
    }
}

/// The transition function of three steps in a row: `m` runs, the state that `f` returns
/// for its result runs from where `m` left, and the state that `g` returns for the result
/// of that one runs from where it left.
pub open spec fn state_bound_twice<'a, S: 'a, A: 'a, B: 'a, C: 'a>(
    m: State<'a, S, A>,
    f: Morphism<A, State<'a, S, B>>,
    g: Morphism<B, State<'a, S, C>>,
) -> Morphism<S, (C, S)> {
    Morphism {
        pre: |s: S|
            m.pre(s) && forall|a: A, s1: S| #[trigger]
                m.post(s, (a, s1)) ==> (f.pre)(a) && forall|t: State<'a, S, B>| #[trigger]
                    (f.post)(a, t) ==> (t.bound(g).pre)(s1),
        post: |s: S, o: (C, S)|
            exists|a: A, s1: S, t: State<'a, S, B>|
                #[trigger] m.post(s, (a, s1)) && #[trigger] (f.post)(a, t) && (t.bound(g).post)(
                    s1,
                    o,
                ),
    }
}

/// Associativity on `State`: `m.bind(f).bind(g)`, here `r1`, and `m.bind(|x| f(x).bind(g))`,
/// here `r2`, behave as the same transition function, three steps in a row.
pub proof fn lemma_state_bind_associative<'a, S: 'a, A: 'a, B: 'a, C: 'a>(
    m: State<'a, S, A>,
    f: Morphism<A, State<'a, S, B>>,
    g: Morphism<B, State<'a, S, C>>,
    n: State<'a, S, B>,
    r1: State<'a, S, C>,
    r2: State<'a, S, C>,
)
    requires
        <State<'a, S, A> as Monad<'a, B>>::bind_ensures(m, f, n),
        <State<'a, S, B> as Monad<'a, C>>::bind_ensures(n, g, r1),
        <State<'a, S, A> as Monad<'a, C>>::bind_ensures(m, state_kleisli(f, g), r2),
    ensures
        r1.runs(state_bound_twice(m, f, g)),
        r2.runs(state_bound_twice(m, f, g)),
{
    let three = state_bound_twice(m, f, g);
    let mf = m.bound(f);
    let ng = n.bound(g);
    let k = state_kleisli(f, g);
    let mk = m.bound(k);
    assert forall|s: S| (three.pre)(s) implies #[trigger] r1.pre(s) by {
        assert((mf.pre)(s)) by {
            assert forall|a: A, s1: S| #[trigger] m.post(s, (a, s1)) implies (f.pre)(a)
                && forall|t: State<'a, S, B>| #[trigger] (f.post)(a, t) ==> t.pre(s1) by {
                assert forall|t: State<'a, S, B>| #[trigger] (f.post)(a, t) implies t.pre(s1) by {
                    assert((t.bound(g).pre)(s1));
                }
            }
        }
        assert(n.pre(s));
        assert forall|b: B, s2: S| #[trigger] n.post(s, (b, s2)) implies (g.pre)(b) && forall|
            u: State<'a, S, C>,
        | #[trigger] (g.post)(b, u) ==> u.pre(s2) by {
            assert((mf.post)(s, (b, s2)));
            let (a, s1, t) = choose|a: A, s1: S, t: State<'a, S, B>|
                #[trigger] m.post(s, (a, s1)) && #[trigger] (f.post)(a, t) && t.post(s1, (b, s2));
            assert((t.bound(g).pre)(s1));
        }
        assert((ng.pre)(s));
    }
    assert forall|s: S, o: (C, S)| #[trigger] r1.post(s, o) implies (three.post)(s, o) by {
        assert((ng.post)(s, o));
        let (b, s2, u) = choose|b: B, s2: S, u: State<'a, S, C>|
            #[trigger] n.post(s, (b, s2)) && #[trigger] (g.post)(b, u) && u.post(s2, o);
        assert((mf.post)(s, (b, s2)));
        let (a, s1, t) = choose|a: A, s1: S, t: State<'a, S, B>|
            #[trigger] m.post(s, (a, s1)) && #[trigger] (f.post)(a, t) && t.post(s1, (b, s2));
        assert(t.post(s1, (b, s2)) && (g.post)(b, u) && u.post(s2, o));
        assert((t.bound(g).post)(s1, o));
        assert(m.post(s, (a, s1)) && (f.post)(a, t) && (t.bound(g).post)(s1, o));
    }
    assert forall|s: S| (three.pre)(s) implies #[trigger] r2.pre(s) by {
        assert forall|a: A, s1: S| #[trigger] m.post(s, (a, s1)) implies (k.pre)(a) && forall|
            w: State<'a, S, C>,
        | #[trigger] (k.post)(a, w) ==> w.pre(s1) by {
            assert((f.pre)(a));
            assert forall|w: State<'a, S, C>| #[trigger] (k.post)(a, w) implies w.pre(s1) by {
                let t = choose|t: State<'a, S, B>| #[trigger] (f.post)(a, t) && w.runs(t.bound(g));
                assert((t.bound(g).pre)(s1));
            }
        }
        assert((mk.pre)(s));
    }
    assert forall|s: S, o: (C, S)| #[trigger] r2.post(s, o) implies (three.post)(s, o) by {
        assert((mk.post)(s, o));
        let (a, s1, w) = choose|a: A, s1: S, w: State<'a, S, C>|
            #[trigger] m.post(s, (a, s1)) && #[trigger] (k.post)(a, w) && w.post(s1, o);
        let t = choose|t: State<'a, S, B>| #[trigger] (f.post)(a, t) && w.runs(t.bound(g));
        assert((t.bound(g).post)(s1, o));
        assert(m.post(s, (a, s1)) && (f.post)(a, t) && (t.bound(g).post)(s1, o));
    }
}

} // verus!
