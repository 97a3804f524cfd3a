//! How expressions are written out, shared by all the encodings.
use vstd::prelude::*;
use vstd::string::StringExecFns;

verus! {

/// `s` is the integer `v` as `to_string` writes it.
pub open spec fn int_text(v: i32, s: Seq<char>) -> bool {
    exists|t: String| #[trigger] vstd::string::to_string_from_display_ensures::<i32>(&v, t) && t@ == s
}

/// The two operands around the sign `op`, in parentheses: `(lhs op rhs)`.
pub open spec fn binary_text(op: Seq<char>, lhs: Seq<char>, rhs: Seq<char>) -> Seq<char> {
    "("@ + lhs + " "@ + op + " "@ + rhs + ")"@
}

/// The text of a sum.
pub open spec fn sum_text(lhs: Seq<char>, rhs: Seq<char>) -> Seq<char> {
    binary_text("+"@, lhs, rhs)
}

/// The text of a product.
pub open spec fn product_text(lhs: Seq<char>, rhs: Seq<char>) -> Seq<char> {
    binary_text("*"@, lhs, rhs)
}

/// The text of a conjunction.
pub open spec fn conjunction_text(lhs: Seq<char>, rhs: Seq<char>) -> Seq<char> {
    binary_text("AND"@, lhs, rhs)
}

/// `s` is the truth value `v` in square brackets.
pub open spec fn bool_text(v: bool) -> Seq<char> {
    if v {
        "[true]"@
    } else {
        "[false]"@
    }
}

/// Writes the integer `v`.
pub fn write_int(v: i32) -> (r: String)
    ensures
        int_text(v, r@),
{
    v.to_string()
}

/// Writes the truth value `v` in square brackets.
pub fn write_bool(v: bool) -> (r: String)
    ensures
        r@ == bool_text(v),
{
    if v {
        String::from_str("[true]")
    } else {
        String::from_str("[false]")
    }
}

/// Writes the two operands around the sign `op`, in parentheses.
pub fn write_binary(op: &str, lhs: String, rhs: String) -> (r: String)
    ensures
        r@ == binary_text(op@, lhs@, rhs@),
{
    let s = String::from_str("(");
    let s = s.concat(lhs.as_str());
    let s = s.concat(" ");
    let s = s.concat(op);
    let s = s.concat(" ");
    let s = s.concat(rhs.as_str());
    s.concat(")")
}

} // verus!
