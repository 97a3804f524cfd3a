//! Types with an associative operation.
use vstd::prelude::*;
use vstd::string::StringExecFns;

verus! {

/// A `Semigroup` is a type with an associative operation: two values of the type can be
/// added together into another value of the same type. Addition of numbers is one example,
/// concatenation of strings another.
///
/// The operation is specified on views, and every implementation proves the law of
/// associativity: `(x + y) + z = x + (y + z)`.
pub trait Semigroup: Sized + View {
    /// What `mappend` computes, on views.
    spec fn combine(a: Self::V, b: Self::V) -> Self::V;

    /// Associativity of [`Semigroup::combine`].
    proof fn lemma_combine_associative(a: Self::V, b: Self::V, c: Self::V)
        ensures
            Self::combine(Self::combine(a, b), c) == Self::combine(a, Self::combine(b, c)),
    ;

    fn mappend(self, other: Self) -> (r: Self)
        ensures
            r@ == Self::combine(self@, other@),
    ;
}

impl Semigroup for String {
    open spec fn combine(a: Seq<char>, b: Seq<char>) -> Seq<char> {
        a + b
    }

    proof fn lemma_combine_associative(a: Seq<char>, b: Seq<char>, c: Seq<char>) {
        assert((a + b) + c =~= a + (b + c));
    }

    fn mappend(self, other: Self) -> (r: Self)
        ensures
            r@ == self@ + other@,
    {
        self.concat(other.as_str())
    }
}

impl Semigroup for i32 {
    /// Addition that wraps around at the bounds of `i32`, so that it is total.
    open spec fn combine(a: i32, b: i32) -> i32 {
        wrapping_sum(a, b)
    }

    proof fn lemma_combine_associative(a: i32, b: i32, c: i32) {
        lemma_wrapping_sum_associative(a, b, c);
    }

    fn mappend(self, other: Self) -> (r: Self)
        ensures
            r == wrapping_sum(self, other),
    {
        self.wrapping_add(other)
    }
}

impl<A> Semigroup for Vec<A> {
    open spec fn combine(a: Seq<A>, b: Seq<A>) -> Seq<A> {
        a + b
    }

    proof fn lemma_combine_associative(a: Seq<A>, b: Seq<A>, c: Seq<A>) {
        assert((a + b) + c =~= a + (b + c));
    }

    fn mappend(self, other: Self) -> (r: Self)
        ensures
            r@ == self@ + other@,
    {
        let mut r = self;
        let mut other = other;
        r.append(&mut other);
        r
    }
}

/// The sum of `a` and `b` modulo 2^32, in the range of `i32`.
pub open spec fn wrapping_sum(a: i32, b: i32) -> i32 {
    if a + b > i32::MAX {
        (a + b - 0x1_0000_0000) as i32
    } else if a + b < i32::MIN {
        (a + b + 0x1_0000_0000) as i32
    } else {
        (a + b) as i32
    }
}

/// Wrapping addition is associative.
pub proof fn lemma_wrapping_sum_associative(a: i32, b: i32, c: i32)
    ensures
        wrapping_sum(wrapping_sum(a, b), c) == wrapping_sum(a, wrapping_sum(b, c)),
{
}

} // verus!
