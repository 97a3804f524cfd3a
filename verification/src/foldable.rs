//! Structures that can be reduced to a summary value.
use vstd::prelude::*;
use crate::morphism::Morphism;

verus! {

/// The contract of the folder `f`, as a morphism from an accumulated value and an element.
pub open spec fn spec_of_folder<A, B, F: Fn(B, &A) -> B>(f: F) -> Morphism<(B, A), B> {
    Morphism {
        pre: |p: (B, A)| f.requires((p.0, &p.1)),
        post: |p: (B, A), r: B| f.ensures((p.0, &p.1), r),
    }
}

/// Folding `s` from the right, starting with `init`, never hands `f` an argument that it
/// does not accept.
pub open spec fn fold_right_accepted<A, B>(s: Seq<A>, f: Morphism<(B, A), B>, init: B) -> bool
    decreases s.len(),
{
    if s.len() == 0 {
        true
    } else {
        &&& (f.pre)((init, s.last()))
        &&& forall|mid: B| #[trigger]
            (f.post)((init, s.last()), mid) ==> fold_right_accepted(s.drop_last(), f, mid)
    }
}

/// `r` is a result of folding `s` from the right with `f`, starting with `init`: the last
/// element is folded first, the first element last.
pub open spec fn fold_right_by<A, B>(s: Seq<A>, f: Morphism<(B, A), B>, init: B, r: B) -> bool
    decreases s.len(),
{
    if s.len() == 0 {
        r == init
    } else {
        exists|mid: B| #[trigger]
            (f.post)((init, s.last()), mid) && fold_right_by(s.drop_last(), f, mid, r)
    }
}

/// A `Foldable` is something that can be folded over to change its structure by alter and/or
/// combining elements to a summary value. In other words, it is a type which supports
/// "foldr".
///
/// `B` is the type of the summary value.
pub trait Foldable<B>: Sized {
    /// The internal type of the `Foldable` which will be wrapped over
    type Unwrapped;

    /// `foldr` may be called with the start value `init` and a folder of contract `f`.
    spec fn foldr_requires(&self, init: B, f: Morphism<(B, Self::Unwrapped), B>) -> bool;

    /// `r` is `self` folded from the right.
    spec fn foldr_ensures(self, init: B, f: Morphism<(B, Self::Unwrapped), B>, r: B) -> bool;

    /// Right-associative fold over a structure to alter and/or reduce it to a single summary
    /// value.
    ///
    /// The folder must be a binary function, with the first argument being the accumulated
    /// value thus far.
    fn foldr<F>(self, init: B, folder: F) -> (r: B) where F: Fn(B, &Self::Unwrapped) -> B
        requires
            self.foldr_requires(init, spec_of_folder(folder)),
        ensures
            self.foldr_ensures(init, spec_of_folder(folder), r),
    ;
}

impl<A, B> Foldable<B> for Vec<A> {
    type Unwrapped = A;

    open spec fn foldr_requires(&self, init: B, f: Morphism<(B, A), B>) -> bool {
        fold_right_accepted(self@, f, init)
    }

    open spec fn foldr_ensures(self, init: B, f: Morphism<(B, A), B>, r: B) -> bool {
        fold_right_by(self@, f, init, r)
    }

    fn foldr<F>(self, init: B, folder: F) -> (r: B) where F: Fn(B, &A) -> B
        ensures
            <Self as Foldable<B>>::foldr_ensures(self, init, spec_of_folder(folder), r),
    {
        let ghost f = spec_of_folder(folder);
        let mut acc = init;
        let mut i: usize = self.len();
        assert(self@.subrange(0, i as int) =~= self@);
        while i > 0
            invariant
                i <= self@.len(),
                f == spec_of_folder(folder),
                fold_right_accepted(self@.subrange(0, i as int), f, acc),
                forall|r: B| #[trigger]
                    fold_right_by(self@.subrange(0, i as int), f, acc, r) ==> fold_right_by(
                        self@,
                        f,
                        init,
                        r,
                    ),
            decreases i,
        {
            let ghost rest = self@.subrange(0, i as int);
            let ghost before = acc;
            i = i - 1;
            assert(rest.last() == self@[i as int]);
            assert(rest.drop_last() =~= self@.subrange(0, i as int));
            assert((f.pre)((before, rest.last())));
            acc = folder(acc, &self[i]);
            assert((f.post)((before, rest.last()), acc));
            assert forall|r: B| #[trigger]
                fold_right_by(self@.subrange(0, i as int), f, acc, r) implies fold_right_by(
                self@,
                f,
                init,
                r,
            ) by {
                assert(fold_right_by(rest, f, before, r));
            }
        }
        assert(fold_right_by(self@.subrange(0, 0), f, acc, acc));
        acc
    }
}

/// Folding with a function is computing `Seq::fold_right`: where the folder returns `g` of
/// the element and the accumulated value, and nothing else, `foldr` returns what
/// `fold_right` returns.
pub proof fn lemma_fold_right_by_total<A, B>(
    s: Seq<A>,
    f: Morphism<(B, A), B>,
    g: spec_fn(A, B) -> B,
    init: B,
    r: B,
)
    requires
        forall|p: (B, A), b: B| #[trigger] (f.post)(p, b) ==> b == g(p.1, p.0),
        fold_right_by(s, f, init, r),
    ensures
        r == s.fold_right(g, init),
    decreases s.len(),
{
    if s.len() > 0 {
        let mid = choose|mid: B| #[trigger]
            (f.post)((init, s.last()), mid) && fold_right_by(s.drop_last(), f, mid, r);
        lemma_fold_right_by_total(s.drop_last(), f, g, mid, r);
    }
}

} // verus!
