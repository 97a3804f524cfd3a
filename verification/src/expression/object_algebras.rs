//! Object algebras: an interface with one method for each term, parameterized by the type
//! of the result. An interpretation is a struct that implements the interface for one
//! result type.
//!
//! A new term is a new interface on top of the first one; a new interpretation is a new
//! struct. Nothing keeps a caller from mixing terms of different kinds in one expression:
//! whoever asks for an interpretation of truth values can still add integers to them.
use vstd::prelude::*;
use crate::expression::render::{
    bool_text,
    conjunction_text,
    int_text,
    product_text,
    sum_text,
    write_binary,
    write_bool,
    write_int,
};

verus! {

/// The terms of the language: integer values and sums. `E` is what an expression is
/// interpreted as.
pub trait Expr<E> {
    /// `r` interprets the integer `v`.
    spec fn i_val_ensures(&self, v: i32, r: E) -> bool;

    /// The sum of `lhs` and `rhs` can be interpreted.
    spec fn add_requires(&self, lhs: E, rhs: E) -> bool;

    /// `r` interprets the sum of `lhs` and `rhs`.
    spec fn add_ensures(&self, lhs: E, rhs: E, r: E) -> bool;

    fn i_val(&self, v: i32) -> (r: E)
        ensures
            self.i_val_ensures(v, r),
    ;

    fn add(&self, lhs: E, rhs: E) -> (r: E)
        requires
            self.add_requires(lhs, rhs),
        ensures
            self.add_ensures(lhs, rhs, r),
    ;
}

/// One more term: products.
pub trait MulExpr<E>: Expr<E> {
    /// The product of `lhs` and `rhs` can be interpreted.
    spec fn mul_requires(&self, lhs: E, rhs: E) -> bool;

    /// `r` interprets the product of `lhs` and `rhs`.
    spec fn mul_ensures(&self, lhs: E, rhs: E, r: E) -> bool;

    fn mul(&self, lhs: E, rhs: E) -> (r: E)
        requires
            self.mul_requires(lhs, rhs),
        ensures
            self.mul_ensures(lhs, rhs, r),
    ;
}

/// Terms of another kind: truth values and conjunctions.
pub trait BoolExpr<E>: Expr<E> {
    /// `r` interprets the truth value `value`.
    spec fn b_ensures(&self, value: bool, r: E) -> bool;

    /// `r` interprets the conjunction of `lhs` and `rhs`.
    spec fn and_ensures(&self, lhs: E, rhs: E, r: E) -> bool;

    fn b(&self, value: bool) -> (r: E)
        ensures
            self.b_ensures(value, r),
    ;

    fn and(&self, lhs: E, rhs: E) -> (r: E)
        ensures
            self.and_ensures(lhs, rhs, r),
    ;
}

/// The interpretation of an expression as the integer it stands for.
pub struct EvaluateInt {}

impl Expr<i32> for EvaluateInt {
    open spec fn i_val_ensures(&self, v: i32, r: i32) -> bool {
        r == v
    }

    /// The sum is in the range of `i32`.
    open spec fn add_requires(&self, lhs: i32, rhs: i32) -> bool {
        i32::MIN <= lhs + rhs <= i32::MAX
    }

    open spec fn add_ensures(&self, lhs: i32, rhs: i32, r: i32) -> bool {
        r == lhs + rhs
    }

    fn i_val(&self, v: i32) -> (r: i32)
        ensures
            r == v,
    {
        v
    }

    fn add(&self, lhs: i32, rhs: i32) -> (r: i32)
        ensures
            r == lhs + rhs,
    {
        lhs + rhs
    }
}

impl MulExpr<i32> for EvaluateInt {
    /// The product is in the range of `i32`.
    open spec fn mul_requires(&self, lhs: i32, rhs: i32) -> bool {
        i32::MIN <= lhs * rhs <= i32::MAX
    }

    open spec fn mul_ensures(&self, lhs: i32, rhs: i32, r: i32) -> bool {
        r == lhs * rhs
    }

    fn mul(&self, lhs: i32, rhs: i32) -> (r: i32)
        ensures
            r == lhs * rhs,
    {
        lhs * rhs
    }
}

/// The interpretation of an expression as its text.
pub struct Render {}

impl Expr<String> for Render {
    open spec fn i_val_ensures(&self, v: i32, r: String) -> bool {
        int_text(v, r@)
    }

    open spec fn add_requires(&self, lhs: String, rhs: String) -> bool {
        true
    }

    open spec fn add_ensures(&self, lhs: String, rhs: String, r: String) -> bool {
        r@ == sum_text(lhs@, rhs@)
    }

    fn i_val(&self, v: i32) -> (r: String)
        ensures
            int_text(v, r@),
    {
        write_int(v)
    }

    fn add(&self, lhs: String, rhs: String) -> (r: String)
        ensures
            r@ == sum_text(lhs@, rhs@),
    {
        write_binary("+", lhs, rhs)
    }
}

impl MulExpr<String> for Render {
    open spec fn mul_requires(&self, lhs: String, rhs: String) -> bool {
        true
    }

    open spec fn mul_ensures(&self, lhs: String, rhs: String, r: String) -> bool {
        r@ == product_text(lhs@, rhs@)
    }

    fn mul(&self, lhs: String, rhs: String) -> (r: String)
        ensures
            r@ == product_text(lhs@, rhs@),
    {
        write_binary("*", lhs, rhs)
    }
}

impl BoolExpr<String> for Render {
    open spec fn b_ensures(&self, value: bool, r: String) -> bool {
        r@ == bool_text(value)
    }

    open spec fn and_ensures(&self, lhs: String, rhs: String, r: String) -> bool {
        r@ == conjunction_text(lhs@, rhs@)
    }

    fn b(&self, value: bool) -> (r: String)
        ensures
            r@ == bool_text(value),
    {
        write_bool(value)
    }

    fn and(&self, lhs: String, rhs: String) -> (r: String)
        ensures
            r@ == conjunction_text(lhs@, rhs@),
    {
        write_binary("AND", lhs, rhs)
    }
}

} // verus!
