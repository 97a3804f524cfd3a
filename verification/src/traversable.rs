//! Structures that can be walked while collecting effects.
use vstd::prelude::*;
use crate::applicative::Applicative;
use crate::apply::Apply;
use crate::foldable::{fold_right_accepted, fold_right_by, spec_of_folder, Foldable};
use crate::functor::Functor;
use crate::morphism::{spec_of2, Morphism};

verus! {

/// The contract of the action `f` on elements that it takes by reference.
pub open spec fn spec_of_action<A, C, F: Fn(&A) -> C>(f: F) -> Morphism<A, C> {
    Morphism { pre: |a: A| f.requires((&a,)), post: |a: A, c: C| f.ensures((&a,), c) }
}

/// The contract of the function that puts a value in front of a vector.
pub open spec fn push_front<B>() -> Morphism<(Vec<B>, B), Vec<B>> {
    Morphism {
        pre: |p: (Vec<B>, B)| true,
        post: |p: (Vec<B>, B), r: Vec<B>| r@ == seq![p.1] + p.0@,
    }
}

/// `r` is what collecting goes on to from the effect `k`, over the elements of `s` from the
/// last to the first: the action `f` is run on the element, and its value is put in front of
/// the values collected in `k` by `lift_a2`.
pub open spec fn traversed_from<'a, A, B: 'a, W>(
    s: Seq<A>,
    f: Morphism<A, <W as Functor<'a, B>>::Wrapped>,
    k: W,
    r: W,
) -> bool where
    W: Apply<'a, B, Vec<B>>,
    W: Functor<'a, Vec<B>, Unwrapped = Vec<B>, Wrapped = W>,

    decreases s.len(),
{
    if s.len() == 0 {
        r == k
    } else {
        exists|c: <W as Functor<'a, B>>::Wrapped, mid: W|
            {
                &&& #[trigger] (f.post)(s.last(), c)
                &&& #[trigger] k.lift_a2_ensures(c, push_front(), mid)
                &&& traversed_from::<A, B, W>(s.drop_last(), f, mid, r)
            }
    }
}

/// `Traversable` represents data structures which can be traversed while perserving the
/// shape. Helpful to walk through a data structure, running some action on each element in
/// turn. Similar to applicatives, it can be used to do things like collecting some effects.
///
/// `B` is what the actions return, `W` the applicative that holds the whole result.
pub trait Traversable<'a, B: 'a, W>: Functor<'a, B> where
    <Self as Functor<'a, B>>::Wrapped: 'a,
    W: Applicative<'a, <Self as Functor<'a, B>>::Wrapped>,
    W: Apply<'a, B, <Self as Functor<'a, B>>::Wrapped>,
    W: Functor<
        'a,
        <Self as Functor<'a, B>>::Wrapped,
        Unwrapped = <Self as Functor<'a, B>>::Wrapped,
        Wrapped = W,
    >,
 {
    /// `traverse` may be called with an action of contract `f`.
    spec fn traverse_requires(
        &self,
        f: Morphism<<Self as Functor<'a, B>>::Unwrapped, <W as Functor<'a, B>>::Wrapped>,
    ) -> bool;

    /// `r` is the effect of the actions of contract `f` on the elements of `self`, with
    /// their values collected in the shape of `self`.
    spec fn traverse_ensures(
        self,
        f: Morphism<<Self as Functor<'a, B>>::Unwrapped, <W as Functor<'a, B>>::Wrapped>,
        r: W,
    ) -> bool;

    /// Convert elements to actions, then evaluate the actions and collect the results.
    fn traverse<F>(self, f: F) -> (r: W) where
        F: Fn(&<Self as Functor<'a, B>>::Unwrapped) -> <W as Functor<'a, B>>::Wrapped,

        requires
            self.traverse_requires(spec_of_action(f)),
        ensures
            self.traverse_ensures(spec_of_action(f), r),
    ;

    /// Evaluate each action in the structure, and collect the results
    fn sequence_a(self) -> (r: W) where
        W: Functor<'a, B, Wrapped = <Self as Functor<'a, B>>::Unwrapped>,
        <Self as Functor<'a, B>>::Unwrapped: Copy,

        ensures
            self.traverse_ensures(Morphism::total(|a: <Self as Functor<'a, B>>::Unwrapped| a), r),
    ;
}

impl<'a, A, B: 'a, W> Traversable<'a, B, W> for Vec<A> where
    W: Applicative<'a, Vec<B>>,
    W: Apply<'a, B, Vec<B>>,
    W: Functor<'a, Vec<B>, Unwrapped = Vec<B>, Wrapped = W>,
 {
    /// The action accepts every element.
    open spec fn traverse_requires(&self, f: Morphism<A, <W as Functor<'a, B>>::Wrapped>) -> bool {
        forall|i: int| 0 <= i < self@.len() ==> (f.pre)(#[trigger] self@[i])
    }

    /// Collecting starts from the effect of `of` on the empty vector and goes over the
    /// elements from the last to the first.
    open spec fn traverse_ensures(
        self,
        f: Morphism<A, <W as Functor<'a, B>>::Wrapped>,
        r: W,
    ) -> bool {
        exists|e: Vec<B>, k: W|
            {
                &&& e@ == Seq::<B>::empty()
                &&& #[trigger] <W as Applicative<'a, Vec<B>>>::of_ensures(e, k)
                &&& traversed_from::<A, B, W>(self@, f, k, r)
            }
    }

    fn traverse<F>(self, f: F) -> (r: W) where F: Fn(&A) -> <W as Functor<'a, B>>::Wrapped
        ensures
            <Self as Traversable<'a, B, W>>::traverse_ensures(self, spec_of_action(f), r),
    {
        let empty: Vec<B> = Vec::new();
        let init = <W as Applicative<'a, Vec<B>>>::of(empty);
        let action = &f;
        let step = |k: W, v: &A| -> (r: W)
            requires
                action.requires((v,)),
            ensures
                exists|c: <W as Functor<'a, B>>::Wrapped|
                    #[trigger] action.ensures((v,), c) && <W as Apply<
                        'a,
                        B,
                        Vec<B>,
                    >>::lift_a2_ensures(k, c, push_front(), r),
            {
                let c = action(v);
                let push = |acc: Vec<B>, b: B| -> (out: Vec<B>)
                    ensures
                        out@ == seq![b] + acc@,
                    {
                        let mut out = acc;
                        out.insert(0, b);
                        assert(out@ =~= seq![b] + acc@);
                        out
                    };
                let r = <W as Apply<'a, B, Vec<B>>>::lift_a2(k, c, push);
                proof {
                    assert(push_front::<B>().refined_by(spec_of2(push)));
                    <W as Apply<'a, B, Vec<B>>>::lemma_lift_a2_refined(
                        k,
                        c,
                        push_front(),
                        spec_of2(push),
                        r,
                    );
                }
                r
            };
        proof {
            lemma_fold_accepted_everywhere(self@, spec_of_folder(step), init);
        }
        let ghost src = self@;
        let r = self.foldr(init, step);
        proof {
            let g = spec_of_folder(step);
            let h = spec_of_action(f);
            assert forall|p: (W, A), out: W| #[trigger] (g.post)(p, out) implies exists|
                c: <W as Functor<'a, B>>::Wrapped,
            |
                #[trigger] (h.post)(p.1, c) && <W as Apply<'a, B, Vec<B>>>::lift_a2_ensures(
                    p.0,
                    c,
                    push_front(),
                    out,
                ) by {
                let c = choose|c: <W as Functor<'a, B>>::Wrapped|
                    #[trigger] action.ensures((&p.1,), c) && <W as Apply<
                        'a,
                        B,
                        Vec<B>,
                    >>::lift_a2_ensures(p.0, c, push_front(), out);
                assert((h.post)(p.1, c));
            }
            lemma_fold_is_traverse::<A, B, W>(src, g, h, init, r);
        }
        r
    }

    fn sequence_a(self) -> (r: W) where W: Functor<'a, B, Wrapped = A>, A: Copy
        ensures
            <Self as Traversable<'a, B, W>>::traverse_ensures(self, Morphism::total(|a: A| a), r),
    {
        let copy = |a: &A| -> (c: A)
            ensures
                c == *a,
            { *a };
        let ghost src = self;
        let r = <Self as Traversable<'a, B, W>>::traverse(self, copy);
        proof {
            let f = Morphism::total(|a: A| a);
            let (e, k) = choose|e: Vec<B>, k: W|
                {
                    &&& e@ == Seq::<B>::empty()
                    &&& #[trigger] <W as Applicative<'a, Vec<B>>>::of_ensures(e, k)
                    &&& traversed_from::<A, B, W>(src@, spec_of_action(copy), k, r)
                };
            lemma_traversed_from_refined::<A, B, W>(src@, f, spec_of_action(copy), k, r);
        }
        r
    }
}

/// A folder that accepts every element of `s`, whatever was accumulated, is accepted by the
/// whole fold.
pub proof fn lemma_fold_accepted_everywhere<A, B>(s: Seq<A>, f: Morphism<(B, A), B>, init: B)
    requires
        forall|acc: B, i: int| 0 <= i < s.len() ==> #[trigger] (f.pre)((acc, s[i])),
    ensures
        fold_right_accepted(s, f, init),
    decreases s.len(),
{
    if s.len() > 0 {
        assert((f.pre)((init, s[s.len() - 1])));
        assert forall|mid: B| #[trigger] (f.post)((init, s.last()), mid) implies fold_right_accepted(
            s.drop_last(),
            f,
            mid,
        ) by {
            assert forall|acc: B, i: int| 0 <= i < s.drop_last().len() implies #[trigger] (f.pre)(
                (acc, s.drop_last()[i]),
            ) by {
                assert((f.pre)((acc, s[i])));
            }
            lemma_fold_accepted_everywhere(s.drop_last(), f, mid);
        }
    }
}

/// A fold whose folder runs the action `f` and collects with `lift_a2` is a traversal.
proof fn lemma_fold_is_traverse<'a, A, B: 'a, W>(
    s: Seq<A>,
    g: Morphism<(W, A), W>,
    f: Morphism<A, <W as Functor<'a, B>>::Wrapped>,
    k: W,
    r: W,
) where W: Apply<'a, B, Vec<B>>, W: Functor<'a, Vec<B>, Unwrapped = Vec<B>, Wrapped = W>
    requires
        forall|p: (W, A), out: W| #[trigger]
            (g.post)(p, out) ==> exists|c: <W as Functor<'a, B>>::Wrapped|
                #[trigger] (f.post)(p.1, c) && <W as Apply<'a, B, Vec<B>>>::lift_a2_ensures(
                    p.0,
                    c,
                    push_front(),
                    out,
                ),
        fold_right_by(s, g, k, r),
    ensures
        traversed_from::<A, B, W>(s, f, k, r),
    decreases s.len(),
{
    if s.len() > 0 {
        let mid = choose|mid: W| #[trigger]
            (g.post)((k, s.last()), mid) && fold_right_by(s.drop_last(), g, mid, r);
        let c = choose|c: <W as Functor<'a, B>>::Wrapped|
            #[trigger] (f.post)(s.last(), c) && <W as Apply<'a, B, Vec<B>>>::lift_a2_ensures(
                k,
                c,
                push_front(),
                mid,
            );
        lemma_fold_is_traverse::<A, B, W>(s.drop_last(), g, f, mid, r);
        assert((f.post)(s.last(), c) && k.lift_a2_ensures(c, push_front(), mid));
    }
}

/// What holds of a traversal for the contract `g` holds for every contract that `g` refines.
pub proof fn lemma_traversed_from_refined<'a, A, B: 'a, W>(
    s: Seq<A>,
    f: Morphism<A, <W as Functor<'a, B>>::Wrapped>,
    g: Morphism<A, <W as Functor<'a, B>>::Wrapped>,
    k: W,
    r: W,
) where W: Apply<'a, B, Vec<B>>, W: Functor<'a, Vec<B>, Unwrapped = Vec<B>, Wrapped = W>
    requires
        f.refined_by(g),
        traversed_from::<A, B, W>(s, g, k, r),
    ensures
        traversed_from::<A, B, W>(s, f, k, r),
    decreases s.len(),
{
    if s.len() > 0 {
        let (c, mid) = choose|c: <W as Functor<'a, B>>::Wrapped, mid: W|
            {
                &&& #[trigger] (g.post)(s.last(), c)
                &&& #[trigger] k.lift_a2_ensures(c, push_front(), mid)
                &&& traversed_from::<A, B, W>(s.drop_last(), g, mid, r)
            };
        lemma_traversed_from_refined::<A, B, W>(s.drop_last(), f, g, mid, r);
        assert((f.post)(s.last(), c) && k.lift_a2_ensures(c, push_front(), mid));
    }
}

/// Collecting in `Option`, from the values `k` on: where a vector comes out, it holds one
/// value for each element of `s`, in the order of `s`, in front of the values of `k`; where
/// nothing comes out although `k` was there, the action has failed on an element.
pub proof fn lemma_option_traversed_from<'a, A, B: 'a>(
    s: Seq<A>,
    f: Morphism<A, Option<B>>,
    k: Option<Vec<B>>,
    r: Option<Vec<B>>,
)
    requires
        traversed_from::<A, B, Option<Vec<B>>>(s, f, k, r),
    ensures
        k is None ==> r is None,
        r matches Some(v) ==> {
            &&& k is Some
            &&& v@.len() == s.len() + k->0@.len()
            &&& forall|i: int| 0 <= i < s.len() ==> (f.post)(s[i], Some(#[trigger] v@[i]))
            &&& v@.subrange(s.len() as int, v@.len() as int) == k->0@
        },
        k is Some && r is None ==> exists|i: int|
            0 <= i < s.len() && (f.post)(#[trigger] s[i], None::<B>),
    decreases s.len(),
{
    if s.len() == 0 {
        if let Some(v) = r {
            assert(v@.subrange(0, v@.len() as int) =~= v@);
        }
    } else {
        let n = s.len() as int;
        let (c, mid) = choose|c: Option<B>, mid: Option<Vec<B>>|
            {
                &&& #[trigger] (f.post)(s.last(), c)
                &&& #[trigger] <Option<Vec<B>> as Apply<'a, B, Vec<B>>>::lift_a2_ensures(
                    k,
                    c,
                    push_front(),
                    mid,
                )
                &&& traversed_from::<A, B, Option<Vec<B>>>(s.drop_last(), f, mid, r)
            };
        lemma_option_traversed_from::<A, B>(s.drop_last(), f, mid, r);
        if let Some(v) = r {
            let m = mid->0;
            let b = c->0;
            assert(m@ == seq![b] + k->0@);
            assert(v@.subrange(n - 1, v@.len() as int) == m@);
            assert(v@[n - 1] == v@.subrange(n - 1, v@.len() as int)[0]);
            assert forall|i: int| 0 <= i < s.len() implies (f.post)(s[i], Some(#[trigger] v@[i])) by {
                if i < n - 1 {
                    assert(s.drop_last()[i] == s[i]);
                }
            }
            assert(v@.subrange(n, v@.len() as int) =~= k->0@) by {
                assert forall|j: int| 0 <= j < k->0@.len() implies v@.subrange(n, v@.len() as int)[j]
                    == k->0@[j] by {
                    assert(v@.subrange(n - 1, v@.len() as int)[j + 1] == v@[n + j]);
                }
            }
        } else if k is Some {
            if mid is None {
                assert(c is None);
                assert((f.post)(s[n - 1], None::<B>));
            } else {
                let i = choose|i: int|
                    0 <= i < s.drop_last().len() && (f.post)(#[trigger] s.drop_last()[i], None::<B>);
                assert(s.drop_last()[i] == s[i]);
            }
        }
    }
}

/// Traversal in `Option`: where all the actions succeed, the result holds their values in
/// the order of the elements; where the result is `None`, an action has failed. No part of
/// a collection comes out of a traversal that failed.
pub proof fn lemma_option_traverse<'a, A, B: 'a>(
    c: Vec<A>,
    f: Morphism<A, Option<B>>,
    r: Option<Vec<B>>,
)
    requires
        <Vec<A> as Traversable<'a, B, Option<Vec<B>>>>::traverse_ensures(c, f, r),
    ensures
        r matches Some(v) ==> {
            &&& v@.len() == c@.len()
            &&& forall|i: int| 0 <= i < c@.len() ==> (f.post)(c@[i], Some(#[trigger] v@[i]))
        },
        r is None ==> exists|i: int| 0 <= i < c@.len() && (f.post)(#[trigger] c@[i], None::<B>),
{
    let (e, k) = choose|e: Vec<B>, k: Option<Vec<B>>|
        {
            &&& e@ == Seq::<B>::empty()
            &&& #[trigger] <Option<Vec<B>> as Applicative<'a, Vec<B>>>::of_ensures(e, k)
            &&& traversed_from::<A, B, Option<Vec<B>>>(c@, f, k, r)
        };
    lemma_option_traversed_from::<A, B>(c@, f, k, r);
}

} // verus!
