//! The free monad: programs as data.
//!
//! A free monad is a construction which allows you to build a monad from any functor. Like
//! other monads, it is a pure way to represent and manipulate computations. In particular,
//! free monads provide a practical way to:
//!
//! * represent stateful computations as data, and run them
//! * build an embedded DSL (domain-specific language)
//! * run a computation using multiple different interpreters
//!
//! A program is built by `lift_f` and `bind` and is never run by this module: an interpreter
//! is a function of the caller that walks the program, and it consumes the program it walks.
use vstd::prelude::*;
use crate::monad::Monad;
use crate::morphism::{spec_of, Morphism};

verus! {

/// A functor whose `fmap` calls its function at most once: the instruction set of a
/// [`Free`] program. The slot of an instruction holds what comes next.
///
/// An implementation says which slot `fmap` maps before it returns, and proves two laws:
/// such a slot is a part of the instruction, and what holds of the result of `fmap` for one
/// contract holds for every contract that it refines.
///
/// `Free` hands a function to `fmap` that asks for a part of the program it is called on.
/// An instruction that keeps the function for later, in a continuation, has to meet that
/// when the continuation calls it.
pub trait FunctorOnce<'a, B: 'a>: Sized {
    type Unwrapped;

    /// Like `Self`, but has a `B` in each slot.
    type Wrapped;

    /// The values that `fmap` hands to its function before it returns.
    spec fn fmap_applies_to(&self, a: Self::Unwrapped) -> bool;

    /// `r` is `self` mapped by a function of contract `f`.
    spec fn fmap_ensures(self, f: Morphism<Self::Unwrapped, B>, r: Self::Wrapped) -> bool;

    /// A slot that `fmap` maps at once is a part of the instruction.
    proof fn lemma_fmap_applies_to_part(&self, a: Self::Unwrapped)
        requires
            self.fmap_applies_to(a),
        ensures
            decreases_to!(*self => a),
    ;

    /// What holds of the result for the contract `g` holds for every contract that `g`
    /// refines on the slots of `self`.
    proof fn lemma_fmap_refined(
        self,
        f: Morphism<Self::Unwrapped, B>,
        g: Morphism<Self::Unwrapped, B>,
        r: Self::Wrapped,
    )
        requires
            f.refined_by(g),
            self.fmap_ensures(g, r),
        ensures
            self.fmap_ensures(f, r),
    ;

    fn fmap<F>(self, f: F) -> (r: Self::Wrapped) where F: FnOnce(Self::Unwrapped) -> B + 'a
        requires
            forall|a: Self::Unwrapped| #[trigger] self.fmap_applies_to(a) ==> f.requires((a,)),
        ensures
            self.fmap_ensures(spec_of(f), r),
    ;
}

/// An instruction that waits to be interpreted, on the heap.
pub struct Pending<T>(pub Box<T>);

/// A program over the instructions of `I` that returns an `A`.
///
/// `Pure` is a finished computation. `Free` is one pending instruction, whose slots hold
/// the programs that may come next. `I` names the instruction set by one of its types; the
/// instruction in a `Free` is that type with programs in its slots.
pub enum Free<'a, I, A: 'a> where I: FunctorOnce<'a, Free<'a, I, A>> {
    Pure(A),
    Free(Pending<<I as FunctorOnce<'a, Free<'a, I, A>>>::Wrapped>),
}

/// `a` is a value at an end of the program `p` that is reached through slots which the
/// instructions map at once.
pub open spec fn free_yields<'a, I, A: 'a, B: 'a>(p: Free<'a, I, A>, a: A) -> bool where
    I: FunctorOnce<'a, Free<'a, I, A>>,
    I: FunctorOnce<'a, Free<'a, I, B>>,
    <I as FunctorOnce<'a, Free<'a, I, A>>>::Wrapped: FunctorOnce<
        'a,
        Free<'a, I, B>,
        Unwrapped = Free<'a, I, A>,
        Wrapped = <I as FunctorOnce<'a, Free<'a, I, B>>>::Wrapped,
    >,

    decreases p,
{
    match p {
        Free::Pure(x) => x == a,
        Free::Free(m) => exists|next: Free<'a, I, A>|
            #[trigger] m.0.fmap_applies_to(next) && decreases_to!(p => next) && free_yields::<
                I,
                A,
                B,
            >(next, a),
    }
}

/// The contract of the function that `fmap` on the program `p` hands to the instruction at
/// the head of `p`: it maps the programs in the slots of that instruction, by `f`.
pub open spec fn free_fmap_step<'a, I, A: 'a, B: 'a>(
    p: Free<'a, I, A>,
    f: Morphism<A, B>,
) -> Morphism<Free<'a, I, A>, Free<'a, I, B>> where
    I: FunctorOnce<'a, Free<'a, I, A>>,
    I: FunctorOnce<'a, Free<'a, I, B>>,
    <I as FunctorOnce<'a, Free<'a, I, A>>>::Wrapped: FunctorOnce<
        'a,
        Free<'a, I, B>,
        Unwrapped = Free<'a, I, A>,
        Wrapped = <I as FunctorOnce<'a, Free<'a, I, B>>>::Wrapped,
    >,

    decreases p, 0nat,
{
    Morphism {
        pre: |x: Free<'a, I, A>|
            decreases_to!(p => x) && forall|a: A| #[trigger]
                free_yields::<I, A, B>(x, a) ==> (f.pre)(a),
        post: |x: Free<'a, I, A>, y: Free<'a, I, B>|
            decreases_to!(p => x) && free_fmap_ensures::<I, A, B>(x, f, y),
    }
}

/// `r` is the program `p` with the values at its ends mapped by a function of contract `f`:
/// a finished computation returns the mapped value, a pending instruction stays and has
/// the programs in its slots mapped.
pub open spec fn free_fmap_ensures<'a, I, A: 'a, B: 'a>(
    p: Free<'a, I, A>,
    f: Morphism<A, B>,
    r: Free<'a, I, B>,
) -> bool where
    I: FunctorOnce<'a, Free<'a, I, A>>,
    I: FunctorOnce<'a, Free<'a, I, B>>,
    <I as FunctorOnce<'a, Free<'a, I, A>>>::Wrapped: FunctorOnce<
        'a,
        Free<'a, I, B>,
        Unwrapped = Free<'a, I, A>,
        Wrapped = <I as FunctorOnce<'a, Free<'a, I, B>>>::Wrapped,
    >,

    decreases p, 1nat,
{
    match p {
        Free::Pure(a) => r matches Free::Pure(b) && (f.post)(a, b),
        Free::Free(m) => r matches Free::Free(m2) && m.0.fmap_ensures(
            free_fmap_step::<I, A, B>(p, f),
            *m2.0,
        ),
    }
}

/// A value at an end of a program is a part of the program.
pub proof fn lemma_free_yields_part<'a, I, A: 'a, B: 'a>(p: Free<'a, I, A>, a: A) where
    I: FunctorOnce<'a, Free<'a, I, A>>,
    I: FunctorOnce<'a, Free<'a, I, B>>,
    <I as FunctorOnce<'a, Free<'a, I, A>>>::Wrapped: FunctorOnce<
        'a,
        Free<'a, I, B>,
        Unwrapped = Free<'a, I, A>,
        Wrapped = <I as FunctorOnce<'a, Free<'a, I, B>>>::Wrapped,
    >,

    requires
        free_yields::<I, A, B>(p, a),
    ensures
        decreases_to!(p => a),
    decreases p,
{
    match p {
        Free::Pure(x) => {
            assert(p->Pure_0 == a);
        },
        Free::Free(m) => {
            let next = choose|next: Free<'a, I, A>|
                #[trigger] m.0.fmap_applies_to(next) && decreases_to!(p => next) && free_yields::<
                    I,
                    A,
                    B,
                >(next, a);
            lemma_free_yields_part::<I, A, B>(next, a);
        },
    }
}

/// What holds of a mapped program for the contract `g` holds for every contract that `g`
/// refines.
pub proof fn lemma_free_fmap_refined<'a, I, A: 'a, B: 'a>(
    p: Free<'a, I, A>,
    f: Morphism<A, B>,
    g: Morphism<A, B>,
    r: Free<'a, I, B>,
) where
    I: FunctorOnce<'a, Free<'a, I, A>>,
    I: FunctorOnce<'a, Free<'a, I, B>>,
    <I as FunctorOnce<'a, Free<'a, I, A>>>::Wrapped: FunctorOnce<
        'a,
        Free<'a, I, B>,
        Unwrapped = Free<'a, I, A>,
        Wrapped = <I as FunctorOnce<'a, Free<'a, I, B>>>::Wrapped,
    >,

    requires
        f.refined_by(g),
        free_fmap_ensures::<I, A, B>(p, g, r),
    ensures
        free_fmap_ensures::<I, A, B>(p, f, r),
    decreases p,
{
    match p {
        Free::Pure(a) => {},
        Free::Free(m) => {
            let sf = free_fmap_step::<I, A, B>(p, f);
            let sg = free_fmap_step::<I, A, B>(p, g);
            assert forall|x: Free<'a, I, A>| #[trigger] (sf.pre)(x) implies (sg.pre)(x) by {
                assert forall|a: A| #[trigger] free_yields::<I, A, B>(x, a) implies (g.pre)(a) by {
                    assert((f.pre)(a));
                }
            }
            assert forall|x: Free<'a, I, A>, y: Free<'a, I, B>| #[trigger]
                (sg.post)(x, y) implies (sf.post)(x, y) by {
                lemma_free_fmap_refined::<I, A, B>(x, f, g, y);
            }
            m.0.lemma_fmap_refined(sf, sg, *r->Free_0.0);
        },
    }
}

impl<'a, I, A: 'a, B: 'a> FunctorOnce<'a, B> for Free<'a, I, A> where
    I: FunctorOnce<'a, Free<'a, I, A>>,
    I: FunctorOnce<'a, Free<'a, I, B>>,
    <I as FunctorOnce<'a, Free<'a, I, A>>>::Wrapped: FunctorOnce<
        'a,
        Free<'a, I, B>,
        Unwrapped = Free<'a, I, A>,
        Wrapped = <I as FunctorOnce<'a, Free<'a, I, B>>>::Wrapped,
    >,
 {
    type Unwrapped = A;

    type Wrapped = Free<'a, I, B>;

    open spec fn fmap_applies_to(&self, a: A) -> bool {
        free_yields::<I, A, B>(*self, a)
    }

    open spec fn fmap_ensures(self, f: Morphism<A, B>, r: Free<'a, I, B>) -> bool {
        free_fmap_ensures::<I, A, B>(self, f, r)
    }

    proof fn lemma_fmap_applies_to_part(&self, a: A) {
        lemma_free_yields_part::<I, A, B>(*self, a);
    }

    proof fn lemma_fmap_refined(self, f: Morphism<A, B>, g: Morphism<A, B>, r: Free<'a, I, B>) {
        lemma_free_fmap_refined::<I, A, B>(self, f, g, r);
    }

    fn fmap<F>(self, f: F) -> (r: Free<'a, I, B>) where F: FnOnce(A) -> B + 'a
        ensures
            <Self as FunctorOnce<'a, B>>::fmap_ensures(self, spec_of(f), r),
        decreases self,
    {
        match self {
            Free::Pure(a) => {
                assert(self == Free::<'a, I, A>::Pure(a));
                assert(self is Pure);
                assert(free_yields::<I, A, B>(Free::<'a, I, A>::Pure(a), a));
                assert(free_yields::<I, A, B>(self, a));
                assert(<Self as FunctorOnce<'a, B>>::fmap_applies_to(&self, a));
                Free::Pure(f(a))
            },
            Free::Free(b) => {
                // Free (fmap g <$> fx)
                let m = *b.0;
                let rec = move |x: Free<'a, I, A>| -> (y: Free<'a, I, B>)
                    requires
                        decreases_to!(self => x),
                        forall|a: A| #[trigger] free_yields::<I, A, B>(x, a) ==> f.requires((a,)),
                    ensures
                        decreases_to!(self => x),
                        free_fmap_ensures::<I, A, B>(x, spec_of(f), y),
                    { x.fmap(f) };
                proof {
                    assert forall|x: Free<'a, I, A>| #[trigger]
                        m.fmap_applies_to(x) implies rec.requires((x,)) by {
                        m.lemma_fmap_applies_to_part(x);
                        assert forall|a: A| #[trigger] free_yields::<I, A, B>(x, a) implies f.requires(
                            (a,),
                        ) by {
                            assert(m.fmap_applies_to(x) && decreases_to!(self => x)
                                && free_yields::<I, A, B>(x, a));
                            assert(free_yields::<I, A, B>(self, a));
                            assert(<Self as FunctorOnce<'a, B>>::fmap_applies_to(&self, a));
                        }
                    }
                }
                let m2 = m.fmap(rec);
                proof {
                    let step = free_fmap_step::<I, A, B>(self, spec_of(f));
                    assert forall|x: Free<'a, I, A>| #[trigger] (step.pre)(x) implies rec.requires(
                        (x,),
                    ) by {
                        assert forall|a: A| #[trigger] free_yields::<I, A, B>(x, a) implies f.requires(
                            (a,),
                        ) by {
                            assert((spec_of(f).pre)(a));
                        }
                    }
                    assert(step.refined_by(spec_of(rec)));
                    m.lemma_fmap_refined(step, spec_of(rec), m2);
                }
                Free::Free(Pending(Box::new(m2)))
            },
        }
    }
}

/// The contract of the function that `bind` on the program `p` hands to the instruction at
/// the head of `p`: it binds the programs in the slots of that instruction to `f`.
pub open spec fn free_bind_step<'a, I, A: 'a, B: 'a>(
    p: Free<'a, I, A>,
    f: Morphism<A, Free<'a, I, B>>,
) -> Morphism<Free<'a, I, A>, Free<'a, I, B>> where
    I: FunctorOnce<'a, Free<'a, I, A>>,
    I: FunctorOnce<'a, Free<'a, I, B>>,
    <I as FunctorOnce<'a, Free<'a, I, A>>>::Wrapped: FunctorOnce<
        'a,
        Free<'a, I, B>,
        Unwrapped = Free<'a, I, A>,
        Wrapped = <I as FunctorOnce<'a, Free<'a, I, B>>>::Wrapped,
    >,

    decreases p, 0nat,
{
    Morphism {
        pre: |x: Free<'a, I, A>|
            decreases_to!(p => x) && forall|a: A| #[trigger]
                free_yields::<I, A, B>(x, a) ==> (f.pre)(a),
        post: |x: Free<'a, I, A>, y: Free<'a, I, B>|
            decreases_to!(p => x) && free_bind_ensures::<I, A, B>(x, f, y),
    }
}

/// `r` is the program `p` bound to a function of contract `f`: a finished computation is
/// replaced by the program that `f` returns for its value, a pending instruction stays and
/// has the programs in its slots bound. The function is not called before a `Pure` is
/// reached.
pub open spec fn free_bind_ensures<'a, I, A: 'a, B: 'a>(
    p: Free<'a, I, A>,
    f: Morphism<A, Free<'a, I, B>>,
    r: Free<'a, I, B>,
) -> bool where
    I: FunctorOnce<'a, Free<'a, I, A>>,
    I: FunctorOnce<'a, Free<'a, I, B>>,
    <I as FunctorOnce<'a, Free<'a, I, A>>>::Wrapped: FunctorOnce<
        'a,
        Free<'a, I, B>,
        Unwrapped = Free<'a, I, A>,
        Wrapped = <I as FunctorOnce<'a, Free<'a, I, B>>>::Wrapped,
    >,

    decreases p, 1nat,
{
    match p {
        Free::Pure(a) => (f.post)(a, r),
        Free::Free(m) => r matches Free::Free(m2) && m.0.fmap_ensures(
            free_bind_step::<I, A, B>(p, f),
            *m2.0,
        ),
    }
}

/// What holds of a bound program for the contract `g` holds for every contract that `g`
/// refines.
pub proof fn lemma_free_bind_refined<'a, I, A: 'a, B: 'a>(
    p: Free<'a, I, A>,
    f: Morphism<A, Free<'a, I, B>>,
    g: Morphism<A, Free<'a, I, B>>,
    r: Free<'a, I, B>,
) where
    I: FunctorOnce<'a, Free<'a, I, A>>,
    I: FunctorOnce<'a, Free<'a, I, B>>,
    <I as FunctorOnce<'a, Free<'a, I, A>>>::Wrapped: FunctorOnce<
        'a,
        Free<'a, I, B>,
        Unwrapped = Free<'a, I, A>,
        Wrapped = <I as FunctorOnce<'a, Free<'a, I, B>>>::Wrapped,
    >,

    requires
        f.refined_by(g),
        free_bind_ensures::<I, A, B>(p, g, r),
    ensures
        free_bind_ensures::<I, A, B>(p, f, r),
    decreases p,
{
    match p {
        Free::Pure(a) => {},
        Free::Free(m) => {
            let sf = free_bind_step::<I, A, B>(p, f);
            let sg = free_bind_step::<I, A, B>(p, g);
            assert forall|x: Free<'a, I, A>| #[trigger] (sf.pre)(x) implies (sg.pre)(x) by {
                assert forall|a: A| #[trigger] free_yields::<I, A, B>(x, a) implies (g.pre)(a) by {
                    assert((f.pre)(a));
                }
            }
            assert forall|x: Free<'a, I, A>, y: Free<'a, I, B>| #[trigger]
                (sg.post)(x, y) implies (sf.post)(x, y) by {
                lemma_free_bind_refined::<I, A, B>(x, f, g, y);
            }
            m.0.lemma_fmap_refined(sf, sg, *r->Free_0.0);
        },
    }
}

impl<'a, I, A: 'a, B: 'a> Monad<'a, B> for Free<'a, I, A> where
    I: FunctorOnce<'a, Free<'a, I, A>>,
    I: FunctorOnce<'a, Free<'a, I, B>>,
    <I as FunctorOnce<'a, Free<'a, I, A>>>::Wrapped: FunctorOnce<
        'a,
        Free<'a, I, B>,
        Unwrapped = Free<'a, I, A>,
        Wrapped = <I as FunctorOnce<'a, Free<'a, I, B>>>::Wrapped,
    >,
 {
    type Unwrapped = A;

    type Wrapped = Free<'a, I, B>;

    open spec fn bind_applies_to(&self, a: A) -> bool {
        free_yields::<I, A, B>(*self, a)
    }

    open spec fn bind_ensures(
        self,
        f: Morphism<A, Free<'a, I, B>>,
        r: Free<'a, I, B>,
    ) -> bool {
        free_bind_ensures::<I, A, B>(self, f, r)
    }

    /// The finished computation that returns `value`.
    open spec fn of_ensures(value: B, r: Free<'a, I, B>) -> bool {
        r == Free::<'a, I, B>::Pure(value)
    }

    proof fn lemma_bind_refined(
        self,
        f: Morphism<A, Free<'a, I, B>>,
        g: Morphism<A, Free<'a, I, B>>,
        r: Free<'a, I, B>,
    ) {
        lemma_free_bind_refined::<I, A, B>(self, f, g, r);
    }

    fn bind<F>(self, f: F) -> (r: Free<'a, I, B>) where F: FnOnce(A) -> Free<'a, I, B> + 'a
        ensures
            <Self as Monad<'a, B>>::bind_ensures(self, spec_of(f), r),
        decreases self,
    {
        // Pure a >>= f = f a
        // Free m >>= f = Free ((>>= f) <$> m)
        match self {
            Free::Pure(a) => {
                assert(<Self as Monad<'a, B>>::bind_applies_to(&self, a));
                f(a)
            },
            Free::Free(b) => {
                let m = *b.0;
                let rec = move |x: Free<'a, I, A>| -> (y: Free<'a, I, B>)
                    requires
                        decreases_to!(self => x),
                        forall|a: A| #[trigger] free_yields::<I, A, B>(x, a) ==> f.requires((a,)),
                    ensures
                        decreases_to!(self => x),
                        free_bind_ensures::<I, A, B>(x, spec_of(f), y),
                    { x.bind(f) };
                proof {
                    assert forall|x: Free<'a, I, A>| #[trigger]
                        m.fmap_applies_to(x) implies rec.requires((x,)) by {
                        m.lemma_fmap_applies_to_part(x);
                        assert(*self->Free_0.0 == m);
                        assert forall|a: A| #[trigger] free_yields::<I, A, B>(x, a) implies f.requires(
                            (a,),
                        ) by {
                            assert(m.fmap_applies_to(x) && decreases_to!(self => x)
                                && free_yields::<I, A, B>(x, a));
                            assert(<Self as Monad<'a, B>>::bind_applies_to(&self, a));
                        }
                    }
                }
                let m2 = m.fmap(rec);
                proof {
                    let step = free_bind_step::<I, A, B>(self, spec_of(f));
                    assert forall|x: Free<'a, I, A>| #[trigger] (step.pre)(x) implies rec.requires(
                        (x,),
                    ) by {
                        assert forall|a: A| #[trigger] free_yields::<I, A, B>(x, a) implies f.requires(
                            (a,),
                        ) by {
                            assert((spec_of(f).pre)(a));
                        }
                    }
                    assert(step.refined_by(spec_of(rec)));
                    m.lemma_fmap_refined(step, spec_of(rec), m2);
                }
                Free::Free(Pending(Box::new(m2)))
            },
        }
    }

    fn of(value: B) -> (r: Free<'a, I, B>)
        ensures
            <Self as Monad<'a, B>>::of_ensures(value, r),
    {
        Free::Pure(value)
    }
}

/// The program of one step: the instruction `command`, with the finished computation that
/// returns the value in each of its slots.
pub fn lift_f<'a, I, A: 'a>(command: I) -> (r: Free<'a, I, A>) where
    I: FunctorOnce<'a, Free<'a, I, A>, Unwrapped = A>,

    ensures
        r matches Free::Free(m) && command.fmap_ensures(
            Morphism::total(|a: A| Free::<'a, I, A>::Pure(a)),
            *m.0,
        ),
{
    // Free (fmap Pure command)
    let pure = |a: A| -> (p: Free<'a, I, A>)
        ensures
            p == Free::<'a, I, A>::Pure(a),
        { Free::Pure(a) };
    let m = command.fmap(pure);
    proof {
        let f = Morphism::total(|a: A| Free::<'a, I, A>::Pure(a));
        assert(f.refined_by(spec_of(pure)));
        command.lemma_fmap_refined(f, spec_of(pure), m);
    }
    Free::Free(Pending(Box::new(m)))
}

impl<'a, A, B: 'a> FunctorOnce<'a, B> for Option<A> {
    type Unwrapped = A;

    type Wrapped = Option<B>;

    open spec fn fmap_applies_to(&self, a: A) -> bool {
        *self == Some(a)
    }

    /// `None` stays `None`; `Some(a)` becomes `Some` of a result of the function on `a`.
    open spec fn fmap_ensures(self, f: Morphism<A, B>, r: Option<B>) -> bool {
        match self {
            Some(a) => r matches Some(b) && (f.post)(a, b),
            None => r is None,
        }
    }

    proof fn lemma_fmap_applies_to_part(&self, a: A) {
        assert(self->0 == a);
    }

    proof fn lemma_fmap_refined(self, f: Morphism<A, B>, g: Morphism<A, B>, r: Option<B>) {
    }

    fn fmap<F>(self, f: F) -> (r: Option<B>) where F: FnOnce(A) -> B + 'a
        ensures
            <Self as FunctorOnce<'a, B>>::fmap_ensures(self, spec_of(f), r),
    {
        match self {
            Some(a) => {
                assert(<Self as FunctorOnce<'a, B>>::fmap_applies_to(&self, a));
                Some(f(a))
            },
            None => None,
        }
    }
}

} // verus!
