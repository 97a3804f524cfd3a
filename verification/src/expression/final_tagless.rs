//! Final tagless encoding: like object algebras, but each interpretation names the type
//! that represents an expression itself. An expression is then built from the functions
//! of one interpretation only, and terms whose representations differ cannot be mixed.
use vstd::prelude::*;
use crate::expression::object_algebras::{EvaluateInt, Render};
use crate::expression::render::{int_text, product_text, sum_text, write_binary, write_int};

verus! {

/// The terms of the language: integer values and sums.
pub trait ExprSym {
    /// What an integer expression is represented as.
    type Repr;

    /// `r` represents the integer `v`.
    spec fn i_val_ensures(v: i32, r: Self::Repr) -> bool;

    /// The sum of `lhs` and `rhs` can be represented.
    spec fn add_requires(lhs: Self::Repr, rhs: Self::Repr) -> bool;

    /// `r` represents the sum of `lhs` and `rhs`.
    spec fn add_ensures(lhs: Self::Repr, rhs: Self::Repr, r: Self::Repr) -> bool;

    fn i_val(v: i32) -> (r: Self::Repr)
        ensures
            Self::i_val_ensures(v, r),
    ;

    fn add(lhs: Self::Repr, rhs: Self::Repr) -> (r: Self::Repr)
        requires
            Self::add_requires(lhs, rhs),
        ensures
            Self::add_ensures(lhs, rhs, r),
    ;
}

/// One more term: products.
pub trait MulExprSym: ExprSym {
    /// The product of `lhs` and `rhs` can be represented.
    spec fn mul_requires(lhs: Self::Repr, rhs: Self::Repr) -> bool;

    /// `r` represents the product of `lhs` and `rhs`.
    spec fn mul_ensures(lhs: Self::Repr, rhs: Self::Repr, r: Self::Repr) -> bool;

    fn mul(lhs: Self::Repr, rhs: Self::Repr) -> (r: Self::Repr)
        requires
            Self::mul_requires(lhs, rhs),
        ensures
            Self::mul_ensures(lhs, rhs, r),
    ;
}

impl ExprSym for EvaluateInt {
    type Repr = i32;

    open spec fn i_val_ensures(v: i32, r: i32) -> bool {
        r == v
    }

    /// The sum is in the range of `i32`.
    open spec fn add_requires(lhs: i32, rhs: i32) -> bool {
        i32::MIN <= lhs + rhs <= i32::MAX
    }

    open spec fn add_ensures(lhs: i32, rhs: i32, r: i32) -> bool {
        r == lhs + rhs
    }

    fn i_val(v: i32) -> (r: i32)
        ensures
            r == v,
    {
        v
    }

    fn add(lhs: i32, rhs: i32) -> (r: i32)
        ensures
            r == lhs + rhs,
    {
        lhs + rhs
    }
}

impl MulExprSym for EvaluateInt {
    /// The product is in the range of `i32`.
    open spec fn mul_requires(lhs: i32, rhs: i32) -> bool {
        i32::MIN <= lhs * rhs <= i32::MAX
    }

    open spec fn mul_ensures(lhs: i32, rhs: i32, r: i32) -> bool {
        r == lhs * rhs
    }

    fn mul(lhs: i32, rhs: i32) -> (r: i32)
        ensures
            r == lhs * rhs,
    {
        lhs * rhs
    }
}

impl ExprSym for Render {
    type Repr = String;

    open spec fn i_val_ensures(v: i32, r: String) -> bool {
        int_text(v, r@)
    }

    open spec fn add_requires(lhs: String, rhs: String) -> bool {
        true
    }

    open spec fn add_ensures(lhs: String, rhs: String, r: String) -> bool {
        r@ == sum_text(lhs@, rhs@)
    }

    fn i_val(v: i32) -> (r: String)
        ensures
            int_text(v, r@),
    {
        write_int(v)
    }

    fn add(lhs: String, rhs: String) -> (r: String)
        ensures
            r@ == sum_text(lhs@, rhs@),
    {
        write_binary("+", lhs, rhs)
    }
}

impl MulExprSym for Render {
    open spec fn mul_requires(lhs: String, rhs: String) -> bool {
        true
    }

    open spec fn mul_ensures(lhs: String, rhs: String, r: String) -> bool {
        r@ == product_text(lhs@, rhs@)
    }

    fn mul(lhs: String, rhs: String) -> (r: String)
        ensures
            r@ == product_text(lhs@, rhs@),
    {
        write_binary("*", lhs, rhs)
    }
}

} // verus!
