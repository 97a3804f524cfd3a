//! Coproduct of functors: each term is a small structure that is a functor over the slots
//! of its operands, and a tagged union composes two term functors into one. An expression
//! is such a union with expressions in its slots; it is folded by mapping the fold over the
//! slots and then interpreting the one layer that is left, bottom-up.
//!
//! A new term is a new structure and a wider union; a new interpretation is a new trait
//! that is implemented term by term. The terms and the interpretations that are there
//! stay as they are.
use vstd::prelude::*;
use std::marker::PhantomData;
use crate::expression::render::{int_text, product_text, sum_text, write_binary, write_int};
use crate::functor::Functor;
use crate::morphism::{spec_of, Morphism};

verus! {

/// An integer value. It has no operands; `E` is what its slots would hold.
#[derive(Debug, PartialEq)]
pub struct IntVal<E> {
    pub value: i32,
    pub _p: PhantomData<E>,
}

impl<E> IntVal<E> {
    pub fn new(value: i32) -> (r: Self)
        ensures
            r.value == value,
    {
        Self { value, _p: PhantomData }
    }
}

impl<E> Clone for IntVal<E> {
    fn clone(&self) -> (r: Self)
        ensures
            r.value == self.value,
    {
        Self { value: self.value, _p: PhantomData }
    }
}

/// A sum of two operands.
#[derive(Clone, Debug, PartialEq)]
pub struct Add<E> {
    pub lhs: E,
    pub rhs: E,
}

impl<E> Add<E> {
    pub fn new(lhs: E, rhs: E) -> (r: Self)
        ensures
            r.lhs == lhs,
            r.rhs == rhs,
    {
        Self { lhs, rhs }
    }
}

/// A product of two operands.
#[derive(Clone, Debug, PartialEq)]
pub struct Mul<E> {
    pub lhs: E,
    pub rhs: E,
}

impl<E> Mul<E> {
    pub fn new(lhs: E, rhs: E) -> (r: Self)
        ensures
            r.lhs == lhs,
            r.rhs == rhs,
    {
        Self { lhs, rhs }
    }
}

/// One of two terms.
#[derive(Clone, Debug, PartialEq)]
pub enum Coproduct<P, Q> {
    L(P),
    R(Q),
}

/// The terms of the first language: integer values and sums.
pub type Op<E> = Coproduct<IntVal<E>, Add<E>>;

/// The terms of the wider language: products, and the terms of the first language.
pub type OpMul<E> = Coproduct<Mul<E>, Op<E>>;

impl<'a, E, B: 'a> Functor<'a, B> for IntVal<E> {
    type Unwrapped = E;

    type Wrapped = IntVal<B>;

    /// There is no slot to map.
    open spec fn fmap_applies_to(&self, a: E) -> bool {
        false
    }

    /// The value stays.
    open spec fn fmap_ensures(self, f: Morphism<E, B>, r: IntVal<B>) -> bool {
        r.value == self.value
    }

    proof fn lemma_fmap_refined(self, f: Morphism<E, B>, g: Morphism<E, B>, r: IntVal<B>) {
    }

    fn fmap<F>(self, f: F) -> (r: IntVal<B>) where F: Fn(E) -> B + 'a
        ensures
            <Self as Functor<'a, B>>::fmap_ensures(self, spec_of(f), r),
    {
        IntVal { value: self.value, _p: PhantomData }
    }
}

impl<'a, E, B: 'a> Functor<'a, B> for Add<E> {
    type Unwrapped = E;

    type Wrapped = Add<B>;

    open spec fn fmap_applies_to(&self, a: E) -> bool {
        a == self.lhs || a == self.rhs
    }

    /// Each operand is mapped.
    open spec fn fmap_ensures(self, f: Morphism<E, B>, r: Add<B>) -> bool {
        (f.post)(self.lhs, r.lhs) && (f.post)(self.rhs, r.rhs)
    }

    proof fn lemma_fmap_refined(self, f: Morphism<E, B>, g: Morphism<E, B>, r: Add<B>) {
    }

    fn fmap<F>(self, f: F) -> (r: Add<B>) where F: Fn(E) -> B + 'a
        ensures
            <Self as Functor<'a, B>>::fmap_ensures(self, spec_of(f), r),
    {
        assert(<Self as Functor<'a, B>>::fmap_applies_to(&self, self.lhs));
        assert(<Self as Functor<'a, B>>::fmap_applies_to(&self, self.rhs));
        Add { lhs: f(self.lhs), rhs: f(self.rhs) }
    }
}

impl<'a, E, B: 'a> Functor<'a, B> for Mul<E> {
    type Unwrapped = E;

    type Wrapped = Mul<B>;

    open spec fn fmap_applies_to(&self, a: E) -> bool {
        a == self.lhs || a == self.rhs
    }

    /// Each operand is mapped.
    open spec fn fmap_ensures(self, f: Morphism<E, B>, r: Mul<B>) -> bool {
        (f.post)(self.lhs, r.lhs) && (f.post)(self.rhs, r.rhs)
    }

    proof fn lemma_fmap_refined(self, f: Morphism<E, B>, g: Morphism<E, B>, r: Mul<B>) {
    }

    fn fmap<F>(self, f: F) -> (r: Mul<B>) where F: Fn(E) -> B + 'a
        ensures
            <Self as Functor<'a, B>>::fmap_ensures(self, spec_of(f), r),
    {
        assert(<Self as Functor<'a, B>>::fmap_applies_to(&self, self.lhs));
        assert(<Self as Functor<'a, B>>::fmap_applies_to(&self, self.rhs));
        Mul { lhs: f(self.lhs), rhs: f(self.rhs) }
    }
}

impl<'a, P, Q, B: 'a> Functor<'a, B> for Coproduct<P, Q> where
    P: Functor<'a, B>,
    Q: Functor<'a, B, Unwrapped = <P as Functor<'a, B>>::Unwrapped>,
 {
    type Unwrapped = <P as Functor<'a, B>>::Unwrapped;

    type Wrapped = Coproduct<<P as Functor<'a, B>>::Wrapped, <Q as Functor<'a, B>>::Wrapped>;

    open spec fn fmap_applies_to(&self, a: <P as Functor<'a, B>>::Unwrapped) -> bool {
        match self {
            Coproduct::L(l) => l.fmap_applies_to(a),
            Coproduct::R(r) => r.fmap_applies_to(a),
        }
    }

    /// The term that is there is mapped, and stays on its side.
    open spec fn fmap_ensures(
        self,
        f: Morphism<<P as Functor<'a, B>>::Unwrapped, B>,
        r: Coproduct<<P as Functor<'a, B>>::Wrapped, <Q as Functor<'a, B>>::Wrapped>,
    ) -> bool {
        match self {
            Coproduct::L(l) => r matches Coproduct::L(l2) && l.fmap_ensures(f, l2),
            Coproduct::R(x) => r matches Coproduct::R(x2) && x.fmap_ensures(f, x2),
        }
    }

    proof fn lemma_fmap_refined(
        self,
        f: Morphism<<P as Functor<'a, B>>::Unwrapped, B>,
        g: Morphism<<P as Functor<'a, B>>::Unwrapped, B>,
        r: Coproduct<<P as Functor<'a, B>>::Wrapped, <Q as Functor<'a, B>>::Wrapped>,
    ) {
        match self {
            Coproduct::L(l) => l.lemma_fmap_refined(f, g, r->L_0),
            Coproduct::R(x) => x.lemma_fmap_refined(f, g, r->R_0),
        }
    }

    fn fmap<F>(self, f: F) -> (r: Coproduct<
        <P as Functor<'a, B>>::Wrapped,
        <Q as Functor<'a, B>>::Wrapped,
    >) where F: Fn(<P as Functor<'a, B>>::Unwrapped) -> B + 'a
        ensures
            <Self as Functor<'a, B>>::fmap_ensures(self, spec_of(f), r),
    {
        match self {
            Coproduct::L(l) => {
                assert forall|a: <P as Functor<'a, B>>::Unwrapped| #[trigger]
                    l.fmap_applies_to(a) implies f.requires((a,)) by {
                    assert(<Self as Functor<'a, B>>::fmap_applies_to(&self, a));
                }
                Coproduct::L(l.fmap(f))
            },
            Coproduct::R(x) => {
                assert forall|a: <P as Functor<'a, B>>::Unwrapped| #[trigger]
                    x.fmap_applies_to(a) implies f.requires((a,)) by {
                    assert(<Self as Functor<'a, B>>::fmap_applies_to(&self, a));
                }
                Coproduct::R(x.fmap(f))
            },
        }
    }
}

/// The interpretation of one layer of an expression as an integer: the operands have been
/// evaluated already.
pub trait EvaluateInt {
    /// The integer that the layer stands for.
    spec fn value(&self) -> int;

    fn eval(&self) -> (r: i32)
        requires
            i32::MIN <= self.value() <= i32::MAX,
        ensures
            r == self.value(),
    ;
}

impl EvaluateInt for IntVal<i32> {
    open spec fn value(&self) -> int {
        self.value as int
    }

    fn eval(&self) -> (r: i32)
        ensures
            r == self.value(),
    {
        self.value
    }
}

impl EvaluateInt for Add<i32> {
    open spec fn value(&self) -> int {
        self.lhs + self.rhs
    }

    fn eval(&self) -> (r: i32)
        ensures
            r == self.value(),
    {
        self.lhs + self.rhs
    }
}

impl EvaluateInt for Mul<i32> {
    open spec fn value(&self) -> int {
        self.lhs * self.rhs
    }

    fn eval(&self) -> (r: i32)
        ensures
            r == self.value(),
    {
        self.lhs * self.rhs
    }
}

impl<P, Q> EvaluateInt for Coproduct<P, Q> where P: EvaluateInt, Q: EvaluateInt {
    open spec fn value(&self) -> int {
        match self {
            Coproduct::L(a) => a.value(),
            Coproduct::R(b) => b.value(),
        }
    }

    fn eval(&self) -> (r: i32)
        ensures
            r == self.value(),
    {
        match self {
            Coproduct::L(a) => a.eval(),
            Coproduct::R(b) => b.eval(),
        }
    }
}

/// The interpretation of one layer of an expression as its text: the operands have been
/// rendered already.
pub trait Render {
    /// `s` is the text of the layer.
    spec fn text(&self, s: Seq<char>) -> bool;

    fn render(&self) -> (r: String)
        ensures
            self.text(r@),
    ;
}

impl Render for IntVal<String> {
    open spec fn text(&self, s: Seq<char>) -> bool {
        int_text(self.value, s)
    }

    fn render(&self) -> (r: String)
        ensures
            self.text(r@),
    {
        write_int(self.value)
    }
}

impl Render for Add<String> {
    open spec fn text(&self, s: Seq<char>) -> bool {
        s == sum_text(self.lhs@, self.rhs@)
    }

    fn render(&self) -> (r: String)
        ensures
            self.text(r@),
    {
        write_binary("+", self.lhs.clone(), self.rhs.clone())
    }
}

impl Render for Mul<String> {
    open spec fn text(&self, s: Seq<char>) -> bool {
        s == product_text(self.lhs@, self.rhs@)
    }

    fn render(&self) -> (r: String)
        ensures
            self.text(r@),
    {
        write_binary("*", self.lhs.clone(), self.rhs.clone())
    }
}

impl<P, Q> Render for Coproduct<P, Q> where P: Render, Q: Render {
    open spec fn text(&self, s: Seq<char>) -> bool {
        match self {
            Coproduct::L(a) => a.text(s),
            Coproduct::R(b) => b.text(s),
        }
    }

    fn render(&self) -> (r: String)
        ensures
            self.text(r@),
    {
        match self {
            Coproduct::L(a) => a.render(),
            Coproduct::R(b) => b.render(),
        }
    }
}

/// An expression of the first language: an integer value, or a sum of two expressions.
///
/// It is the union `Op` with expressions in its slots, closed up into one type: `unroll`
/// hands out the layer on top, `roll` puts a layer back.
#[derive(Debug, PartialEq)]
pub enum Expr {
    Val(i32),
    Sum(Box<Add<Expr>>),
}

impl Clone for Expr {
    fn clone(&self) -> (r: Self)
        ensures
            r == *self,
        decreases self,
    {
        match self {
            Expr::Val(v) => Expr::Val(*v),
            Expr::Sum(a) => Expr::Sum(Box::new(Add { lhs: a.lhs.clone(), rhs: a.rhs.clone() })),
        }
    }
}

impl Expr {
    /// The integer that the expression stands for.
    pub open spec fn value(self) -> int
        decreases self,
    {
        match self {
            Expr::Val(v) => v as int,
            Expr::Sum(a) => a.lhs.value() + a.rhs.value(),
        }
    }

    /// The expression and each of its parts stand for an integer in the range of `i32`.
    pub open spec fn in_range(self) -> bool
        decreases self,
    {
        match self {
            Expr::Val(v) => true,
            Expr::Sum(a) => a.lhs.in_range() && a.rhs.in_range() && i32::MIN <= a.lhs.value()
                + a.rhs.value() <= i32::MAX,
        }
    }

    /// `s` is the text of the expression.
    pub open spec fn text(self, s: Seq<char>) -> bool
        decreases self,
    {
        match self {
            Expr::Val(v) => int_text(v, s),
            Expr::Sum(a) => exists|l: Seq<char>, r: Seq<char>|
                a.lhs.text(l) && a.rhs.text(r) && s == #[trigger] sum_text(l, r),
        }
    }

    /// The layer on top of `self`.
    pub open spec fn unrolled(self) -> Op<Expr> {
        match self {
            Expr::Val(v) => Coproduct::L(IntVal { value: v, _p: PhantomData }),
            Expr::Sum(a) => Coproduct::R(*a),
        }
    }

    /// The expression whose layer on top is `op`.
    pub fn roll(op: Op<Expr>) -> (r: Expr)
        ensures
            r.unrolled() == op,
    {
        match op {
            Coproduct::L(v) => Expr::Val(v.value),
            Coproduct::R(a) => Expr::Sum(Box::new(a)),
        }
    }

    /// The layer on top of `self`, with the operands in its slots.
    pub fn unroll(self) -> (op: Op<Expr>)
        ensures
            op == self.unrolled(),
    {
        match self {
            Expr::Val(v) => Coproduct::L(IntVal::new(v)),
            Expr::Sum(a) => Coproduct::R(*a),
        }
    }

    /// Folds the expression to the integer it stands for: the operands are evaluated, and
    /// then the layer that is left.
    pub fn eval(self) -> (r: i32)
        requires
            self.in_range(),
        ensures
            r == self.value(),
        decreases self,
    {
        let whole = Ghost(self);
        let layer = self.unroll();
        let operand = |e: Expr| -> (v: i32)
            requires
                decreases_to!(whole@ => e),
                e.in_range(),
            ensures
                v == e.value(),
            { e.eval() };
        assert forall|e: Expr| #[trigger]
            <Op<Expr> as Functor<i32>>::fmap_applies_to(&layer, e) implies operand.requires(
            (e,),
        ) by {
            let a = whole@->Sum_0;
            assert(e == a.lhs || e == a.rhs);
        }
        let evaluated: Op<i32> = layer.fmap(operand);
        evaluated.eval()
    }

    /// Folds the expression to its text: the operands are rendered, and then the layer that
    /// is left.
    pub fn render(self) -> (r: String)
        ensures
            self.text(r@),
        decreases self,
    {
        let whole = Ghost(self);
        let layer = self.unroll();
        let operand = |e: Expr| -> (t: String)
            requires
                decreases_to!(whole@ => e),
            ensures
                e.text(t@),
            { e.render() };
        assert forall|e: Expr| #[trigger]
            <Op<Expr> as Functor<String>>::fmap_applies_to(&layer, e) implies operand.requires(
            (e,),
        ) by {
            let a = whole@->Sum_0;
            assert(e == a.lhs || e == a.rhs);
        }
        let rendered: Op<String> = layer.fmap(operand);
        let r = rendered.render();
        proof {
            assert(rendered.text(r@));
            if whole@ is Sum {
                let a = whole@->Sum_0;
                let t = rendered->R_0;
                assert(a.lhs.text(t.lhs@) && a.rhs.text(t.rhs@));
                assert(r@ == sum_text(t.lhs@, t.rhs@));
            } else {
                assert(int_text(whole@->Val_0, r@));
            }
            assert(whole@.text(r@));
        }
        r
    }
}

/// An expression of the wider language: products too.
#[derive(Debug, PartialEq)]
pub enum MulExpr {
    Val(i32),
    Sum(Box<Add<MulExpr>>),
    Product(Box<Mul<MulExpr>>),
}

impl Clone for MulExpr {
    fn clone(&self) -> (r: Self)
        ensures
            r == *self,
        decreases self,
    {
        match self {
            MulExpr::Val(v) => MulExpr::Val(*v),
            MulExpr::Sum(a) => MulExpr::Sum(
                Box::new(Add { lhs: a.lhs.clone(), rhs: a.rhs.clone() }),
            ),
            MulExpr::Product(a) => MulExpr::Product(
                Box::new(Mul { lhs: a.lhs.clone(), rhs: a.rhs.clone() }),
            ),
        }
    }
}

impl MulExpr {
    /// The integer that the expression stands for.
    pub open spec fn value(self) -> int
        decreases self,
    {
        match self {
            MulExpr::Val(v) => v as int,
            MulExpr::Sum(a) => a.lhs.value() + a.rhs.value(),
            MulExpr::Product(a) => a.lhs.value() * a.rhs.value(),
        }
    }

    /// The expression and each of its parts stand for an integer in the range of `i32`.
    pub open spec fn in_range(self) -> bool
        decreases self,
    {
        match self {
            MulExpr::Val(v) => true,
            MulExpr::Sum(a) => a.lhs.in_range() && a.rhs.in_range() && i32::MIN <= a.lhs.value()
                + a.rhs.value() <= i32::MAX,
            MulExpr::Product(a) => a.lhs.in_range() && a.rhs.in_range() && i32::MIN
                <= a.lhs.value() * a.rhs.value() <= i32::MAX,
        }
    }

    /// `s` is the text of the expression.
    pub open spec fn text(self, s: Seq<char>) -> bool
        decreases self,
    {
        match self {
            MulExpr::Val(v) => int_text(v, s),
            MulExpr::Sum(a) => exists|l: Seq<char>, r: Seq<char>|
                a.lhs.text(l) && a.rhs.text(r) && s == #[trigger] sum_text(l, r),
            MulExpr::Product(a) => exists|l: Seq<char>, r: Seq<char>|
                a.lhs.text(l) && a.rhs.text(r) && s == #[trigger] product_text(l, r),
        }
    }

    /// The layer on top of `self`.
    pub open spec fn unrolled(self) -> OpMul<MulExpr> {
        match self {
            MulExpr::Val(v) => Coproduct::R(Coproduct::L(IntVal { value: v, _p: PhantomData })),
            MulExpr::Sum(a) => Coproduct::R(Coproduct::R(*a)),
            MulExpr::Product(a) => Coproduct::L(*a),
        }
    }

    /// The expression whose layer on top is `op`.
    pub fn roll(op: OpMul<MulExpr>) -> (r: MulExpr)
        ensures
            r.unrolled() == op,
    {
        match op {
            Coproduct::L(m) => MulExpr::Product(Box::new(m)),
            Coproduct::R(Coproduct::L(v)) => MulExpr::Val(v.value),
            Coproduct::R(Coproduct::R(a)) => MulExpr::Sum(Box::new(a)),
        }
    }

    /// The layer on top of `self`, with the operands in its slots.
    pub fn unroll(self) -> (op: OpMul<MulExpr>)
        ensures
            op == self.unrolled(),
    {
        match self {
            MulExpr::Val(v) => Coproduct::R(Coproduct::L(IntVal::new(v))),
            MulExpr::Sum(a) => Coproduct::R(Coproduct::R(*a)),
            MulExpr::Product(a) => Coproduct::L(*a),
        }
    }

    /// Folds the expression to the integer it stands for: the operands are evaluated, and
    /// then the layer that is left.
    pub fn eval(self) -> (r: i32)
        requires
            self.in_range(),
        ensures
            r == self.value(),
        decreases self,
    {
        let whole = Ghost(self);
        let layer = self.unroll();
        let operand = |e: MulExpr| -> (v: i32)
            requires
                decreases_to!(whole@ => e),
                e.in_range(),
            ensures
                v == e.value(),
            { e.eval() };
        assert forall|e: MulExpr| #[trigger]
            <OpMul<MulExpr> as Functor<i32>>::fmap_applies_to(&layer, e) implies operand.requires(
            (e,),
        ) by {
            if whole@ is Sum {
                let a = whole@->Sum_0;
                assert(e == a.lhs || e == a.rhs);
            } else if whole@ is Product {
                let a = whole@->Product_0;
                assert(e == a.lhs || e == a.rhs);
            }
        }
        let evaluated: OpMul<i32> = layer.fmap(operand);
        evaluated.eval()
    }

    /// Folds the expression to its text: the operands are rendered, and then the layer that
    /// is left.
    pub fn render(self) -> (r: String)
        ensures
            self.text(r@),
        decreases self,
    {
        let whole = Ghost(self);
        let layer = self.unroll();
        let operand = |e: MulExpr| -> (t: String)
            requires
                decreases_to!(whole@ => e),
            ensures
                e.text(t@),
            { e.render() };
        assert forall|e: MulExpr| #[trigger]
            <OpMul<MulExpr> as Functor<String>>::fmap_applies_to(&layer, e) implies operand.requires(
            (e,),
        ) by {
            if whole@ is Sum {
                let a = whole@->Sum_0;
                assert(e == a.lhs || e == a.rhs);
            } else if whole@ is Product {
                let a = whole@->Product_0;
                assert(e == a.lhs || e == a.rhs);
            }
        }
        let rendered: OpMul<String> = layer.fmap(operand);
        let r = rendered.render();
        proof {
            assert(rendered.text(r@));
            if whole@ is Sum {
                let a = whole@->Sum_0;
                let t = rendered->R_0->R_0;
                assert(a.lhs.text(t.lhs@) && a.rhs.text(t.rhs@));
                assert(r@ == sum_text(t.lhs@, t.rhs@));
            } else if whole@ is Product {
                let a = whole@->Product_0;
                let t = rendered->L_0;
                assert(a.lhs.text(t.lhs@) && a.rhs.text(t.rhs@));
                assert(r@ == product_text(t.lhs@, t.rhs@));
            } else {
                assert(int_text(whole@->Val_0, r@));
            }
            assert(whole@.text(r@));
        }
        r
    }
}

} // verus!
