//! A result together with an accumulated log.
use vstd::prelude::*;
use crate::applicative::Applicative;
use crate::apply::Apply;
use crate::functor::Functor;
use crate::monad::Monad;
use crate::monoid::Monoid;
use crate::morphism::{spec_of, spec_of2, Morphism};

verus! {

/// `Writer` helps capture the pattern of writing to a pure log or accumulated value, handling
/// the book-keeping for you. This is often used for loggers, but could be anything as long
/// as the hidden value is a `Monoid`.
///
/// There are many applications of `Writer`s, but as an illustrative point, one could use it
/// for logging across processes and time, since the log is carried around with the result in
/// a pure fashion.
pub struct Writer<A, W: Monoid> {
    /// The enclosed value and log of the `Writer`.
    pub runner: (A, W),
}

impl<A, W: Monoid> Writer<A, W> {
    /// The enclosed value.
    pub open spec fn value(self) -> A {
        self.runner.0
    }

    /// The view of the log.
    pub open spec fn log(self) -> W::V {
        self.runner.1@
    }

    /// Construct a `Writer` struct from a starting value and log.
    pub fn new(value: A, log: W) -> (r: Self)
        ensures
            r.runner == (value, log),
    {
        Self { runner: (value, log) }
    }

    /// Construct a `Writer` struct from a log.
    pub fn tell(log: W) -> (r: Writer<(), W>)
        ensures
            r.runner == ((), log),
    {
        Writer { runner: ((), log) }
    }

    /// Extract the enclosed value and log from an `Writer`.
    pub fn execute(self) -> (r: (A, W))
        ensures
            r == self.runner,
    {
        self.runner
    }
}

impl<'a, A, W: Monoid, B: 'a> Functor<'a, B> for Writer<A, W> {
    type Unwrapped = A;

    type Wrapped = Writer<B, W>;

    open spec fn fmap_applies_to(&self, a: A) -> bool {
        self.value() == a
    }

    /// The value is mapped, the log is kept.
    open spec fn fmap_ensures(self, f: Morphism<A, B>, r: Writer<B, W>) -> bool {
        &&& (f.post)(self.value(), r.value())
        &&& r.runner.1 == self.runner.1
    }

    proof fn lemma_fmap_refined(self, f: Morphism<A, B>, g: Morphism<A, B>, r: Writer<B, W>) {
    }

    fn fmap<F>(self, f: F) -> (r: Writer<B, W>) where F: Fn(A) -> B + 'a
        ensures
            f.ensures((self.value(),), r.value()),
            r.runner.1 == self.runner.1,
    {
        let (a, l) = self.runner;
        assert(<Self as Functor<'a, B>>::fmap_applies_to(&self, a));
        Writer::new(f(a), l)
    }
}

impl<'a, A, W: Monoid, X: 'a, B: 'a> Apply<'a, X, B> for Writer<A, W> {
    open spec fn ap_requires(&self, f: &Writer<X, W>) -> bool where X: FnOnce(A) -> B {
        f.value().requires((self.value(),))
    }

    /// The wrapped function is applied to the value; the log of `self` comes first, the log
    /// of `f` after it.
    open spec fn ap_ensures(self, f: Writer<X, W>, r: Writer<B, W>) -> bool where
        X: FnOnce(A) -> B,
     {
        &&& f.value().ensures((self.value(),), r.value())
        &&& r.log() == W::combine(self.log(), f.log())
    }

    open spec fn lift_a2_applies_to(&self, other: &Writer<X, W>, a: A, x: X) -> bool {
        self.value() == a && other.value() == x
    }

    /// The two values are combined; the log of `self` comes first, the log of `other` after
    /// it.
    open spec fn lift_a2_ensures(
        self,
        other: Writer<X, W>,
        f: Morphism<(A, X), B>,
        r: Writer<B, W>,
    ) -> bool {
        &&& (f.post)((self.value(), other.value()), r.value())
        &&& r.log() == W::combine(self.log(), other.log())
    }

    proof fn lemma_lift_a2_refined(
        self,
        other: Writer<X, W>,
        f: Morphism<(A, X), B>,
        g: Morphism<(A, X), B>,
        r: Writer<B, W>,
    ) {
    }

    fn ap(self, f: Writer<X, W>) -> (r: Writer<B, W>) where X: FnOnce(A) -> B
        ensures
            f.value().ensures((self.value(),), r.value()),
            r.log() == W::combine(self.log(), f.log()),
    {
        let (a, l1) = self.runner;
        let (f, l2) = f.runner;
        Writer::new(f(a), l1.mappend(l2))
    }

    fn lift_a2<F>(self, other: Writer<X, W>, f: F) -> (r: Writer<B, W>) where
        F: FnOnce(A, X) -> B + 'a,
        ensures
            f.ensures((self.value(), other.value()), r.value()),
            r.log() == W::combine(self.log(), other.log()),
    {
        let (a1, l1) = self.runner;
        let (a2, l2) = other.runner;
        assert(<Self as Apply<'a, X, B>>::lift_a2_applies_to(&self, &other, a1, a2));
        Writer::new(f(a1, a2), l1.mappend(l2))
    }
}

impl<'a, A, W: Monoid, B: 'a> Applicative<'a, B> for Writer<A, W> {
    /// The value with the empty log.
    open spec fn of_ensures(value: B, r: Writer<B, W>) -> bool {
        r.value() == value && r.log() == W::empty()
    }

    fn of(value: B) -> (r: Writer<B, W>) {
        Writer::new(value, W::mempty())
    }
}

impl<'a, A, W: Monoid, B: 'a> Monad<'a, B> for Writer<A, W> {
    type Unwrapped = A;

    type Wrapped = Writer<B, W>;

    open spec fn bind_applies_to(&self, a: A) -> bool {
        self.value() == a
    }

    /// The value is that of the writer `t` which the function returns; the log of `self`
    /// comes first, the log of `t` after it.
    open spec fn bind_ensures(self, f: Morphism<A, Writer<B, W>>, r: Writer<B, W>) -> bool {
        exists|t: Writer<B, W>|
            {
                &&& #[trigger] (f.post)(self.value(), t)
                &&& r.value() == t.value()
                &&& r.log() == W::combine(self.log(), t.log())
            }
    }

    /// The value with the empty log.
    open spec fn of_ensures(value: B, r: Writer<B, W>) -> bool {
        r.value() == value && r.log() == W::empty()
    }

    proof fn lemma_bind_refined(
        self,
        f: Morphism<A, Writer<B, W>>,
        g: Morphism<A, Writer<B, W>>,
        r: Writer<B, W>,
    ) {
        let t = choose|t: Writer<B, W>|
            {
                &&& #[trigger] (g.post)(self.value(), t)
                &&& r.value() == t.value()
                &&& r.log() == W::combine(self.log(), t.log())
            };
        assert((f.post)(self.value(), t));
    }

    fn bind<F>(self, f: F) -> (r: Writer<B, W>) where F: FnOnce(A) -> Writer<B, W> + 'a
        ensures
            <Self as Monad<'a, B>>::bind_ensures(self, spec_of(f), r),
    {
        let (a1, w1) = self.runner;
        assert(<Self as Monad<'a, B>>::bind_applies_to(&self, a1));
        let t = f(a1);
        let ghost tg = t;
        let (a2, w2) = t.runner;
        let r = Writer::new(a2, w1.mappend(w2));
        assert((spec_of(f).post)(self.value(), tg));
        r
    }

    fn of(value: B) -> (r: Writer<B, W>) {
        Writer::new(value, W::mempty())
    }
}

/// Identity law on `Writer`: `c.fmap(id) == c`.
pub proof fn lemma_writer_fmap_identity<'a, A: 'a, W: Monoid>(c: Writer<A, W>, r: Writer<A, W>)
    requires
        <Writer<A, W> as Functor<'a, A>>::fmap_ensures(c, Morphism::identity(), r),
    ensures
        r == c,
{
}

/// Composition law on `Writer`, for any two contracts: mapping `f` and then `g` is mapping
/// `f.and_then(g)`.
pub proof fn lemma_writer_fmap_composition<'a, A, W: Monoid, B: 'a, C: 'a>(
    c: Writer<A, W>,
    f: Morphism<A, B>,
    g: Morphism<B, C>,
    m: Writer<B, W>,
    r: Writer<C, W>,
)
    requires
        <Writer<A, W> as Functor<'a, B>>::fmap_ensures(c, f, m),
        <Writer<B, W> as Functor<'a, C>>::fmap_ensures(m, g, r),
    ensures
        <Writer<A, W> as Functor<'a, C>>::fmap_ensures(c, f.and_then(g), r),
{
}

/// Left identity on `Writer`: `of(a).bind(f)` has the value and the log of `f(a)`.
pub proof fn lemma_writer_bind_left_identity<'a, A: 'a, W: Monoid, B: 'a>(
    a: A,
    m: Writer<A, W>,
    f: Morphism<A, Writer<B, W>>,
    r: Writer<B, W>,
)
    requires
        <Writer<A, W> as Monad<'a, A>>::of_ensures(a, m),
        <Writer<A, W> as Monad<'a, B>>::bind_ensures(m, f, r),
    ensures
        exists|t: Writer<B, W>| #[trigger]
            (f.post)(a, t) && r.value() == t.value() && r.log() == t.log(),
{
    let t = choose|t: Writer<B, W>|
        {
            &&& #[trigger] (f.post)(m.value(), t)
            &&& r.value() == t.value()
            &&& r.log() == W::combine(m.log(), t.log())
        };
    W::lemma_empty_is_identity(t.log());
}

/// Right identity on `Writer`: `m.bind(of)` has the value and the log of `m`.
pub proof fn lemma_writer_bind_right_identity<'a, A: 'a, W: Monoid>(
    m: Writer<A, W>,
    r: Writer<A, W>,
)
    requires
        <Writer<A, W> as Monad<'a, A>>::bind_ensures(
            m,
            crate::monad::of_morphism::<A, Writer<A, W>>(),
            r,
        ),
    ensures
        r.value() == m.value(),
        r.log() == m.log(),
{
    W::lemma_empty_is_identity(m.log());
}

/// Associativity on `Writer`: where `r` is `m.bind(f).bind(g)`, with `t` and `u` what `f` and
/// `g` returned, `r` has the value and the log of `m.bind(|x| f(x).bind(g))`: the log of `m`,
/// then the logs of `t` and `u` combined.
pub proof fn lemma_writer_bind_associative<'a, A, W: Monoid, B: 'a, C: 'a>(
    m: Writer<A, W>,
    f: Morphism<A, Writer<B, W>>,
    g: Morphism<B, Writer<C, W>>,
    n: Writer<B, W>,
    r: Writer<C, W>,
)
    requires
        <Writer<A, W> as Monad<'a, B>>::bind_ensures(m, f, n),
        <Writer<B, W> as Monad<'a, C>>::bind_ensures(n, g, r),
    ensures
        exists|t: Writer<B, W>, u: Writer<C, W>|
            {
                &&& #[trigger] (f.post)(m.value(), t)
                &&& #[trigger] (g.post)(t.value(), u)
                &&& r.value() == u.value()
                &&& r.log() == W::combine(m.log(), W::combine(t.log(), u.log()))
            },
{
    let t = choose|t: Writer<B, W>|
        {
            &&& #[trigger] (f.post)(m.value(), t)
            &&& n.value() == t.value()
            &&& n.log() == W::combine(m.log(), t.log())
        };
    let u = choose|u: Writer<C, W>|
        {
            &&& #[trigger] (g.post)(n.value(), u)
            &&& r.value() == u.value()
            &&& r.log() == W::combine(n.log(), u.log())
        };
    W::lemma_combine_associative(m.log(), t.log(), u.log());
    assert((f.post)(m.value(), t) && (g.post)(t.value(), u));
}

} // verus!
