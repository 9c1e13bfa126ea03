//! Generation and shrinking of boxed and shared values, half-open ranges, range bounds
//! and wrapping integers.
use vstd::prelude::*;

use crate::arbitrary::{lemma_map_push, Arbitrary};
use crate::gen::Gen;
use crate::sequences::models;

verus! {

impl<A: Arbitrary> Arbitrary for Box<A> {
    type Model = A::Model;

    open spec fn model(&self) -> A::Model {
        (**self).model()
    }

    open spec fn shrink_spec(m: A::Model) -> Seq<A::Model> {
        A::shrink_spec(m)
    }

    open spec fn weight(m: A::Model) -> nat {
        A::weight(m)
    }

    open spec fn within(m: A::Model, size: nat) -> bool {
        A::within(m, size)
    }

    proof fn lemma_shrink_lighter(m: A::Model) {
        A::lemma_shrink_lighter(m);
    }

    fn arbitrary(g: &mut Gen) -> (r: Box<A>) {
        Box::new(A::arbitrary(g))
    }

    fn shrink(&self) -> (r: Vec<Box<A>>) {
        let xs = (**self).shrink();
        let ghost cands = A::shrink_spec((**self).model());
        let mut r: Vec<Box<A>> = Vec::new();
        let mut k: usize = 0;
        assert(r@.map_values(|b: Box<A>| (*b).model()) =~= cands.subrange(0, 0));
        while k < xs.len()
            invariant
                k <= xs@.len(),
                models(xs@) == cands,
                r@.map_values(|b: Box<A>| (*b).model()) == cands.subrange(0, k as int),
            decreases xs@.len() - k,
        {
            let b = Box::new(xs[k].duplicate());
            let ghost prev = r@;
            r.push(b);
            proof {
                lemma_map_push(prev, b, |b: Box<A>| (*b).model());
                assert(xs@[k as int].model() == models(xs@)[k as int]);
                assert(cands.subrange(0, k + 1) =~= cands.subrange(0, k as int).push(cands[k as int]));
            }
            k += 1;
        }
        assert(cands.subrange(0, k as int) =~= cands);
        assert(r@.map_values(|x: Self| x.model()) =~= r@.map_values(|b: Box<A>| (*b).model()));
        r
    }

    fn duplicate(&self) -> (r: Box<A>) {
        Box::new((**self).duplicate())
    }
}

impl<A: Arbitrary> Arbitrary for std::sync::Arc<A> {
    type Model = A::Model;

    open spec fn model(&self) -> A::Model {
        (**self).model()
    }

    open spec fn shrink_spec(m: A::Model) -> Seq<A::Model> {
        A::shrink_spec(m)
    }

    open spec fn weight(m: A::Model) -> nat {
        A::weight(m)
    }

    open spec fn within(m: A::Model, size: nat) -> bool {
        A::within(m, size)
    }

    proof fn lemma_shrink_lighter(m: A::Model) {
        A::lemma_shrink_lighter(m);
    }

    fn arbitrary(g: &mut Gen) -> (r: std::sync::Arc<A>) {
        std::sync::Arc::new(A::arbitrary(g))
    }

    fn shrink(&self) -> (r: Vec<std::sync::Arc<A>>) {
        let xs = (**self).shrink();
        let ghost cands = A::shrink_spec((**self).model());
        let mut r: Vec<std::sync::Arc<A>> = Vec::new();
        let mut k: usize = 0;
        assert(r@.map_values(|b: std::sync::Arc<A>| (*b).model()) =~= cands.subrange(0, 0));
        while k < xs.len()
            invariant
                k <= xs@.len(),
                models(xs@) == cands,
                r@.map_values(|b: std::sync::Arc<A>| (*b).model()) == cands.subrange(0, k as int),
            decreases xs@.len() - k,
        {
            let b = std::sync::Arc::new(xs[k].duplicate());
            let ghost prev = r@;
            r.push(b);
            proof {
                lemma_map_push(prev, b, |b: std::sync::Arc<A>| (*b).model());
                assert(xs@[k as int].model() == models(xs@)[k as int]);
                assert(cands.subrange(0, k + 1) =~= cands.subrange(0, k as int).push(cands[k as int]));
            }
            k += 1;
        }
        assert(cands.subrange(0, k as int) =~= cands);
        assert(r@.map_values(|x: Self| x.model()) =~= r@.map_values(|b: std::sync::Arc<A>| (*b).model()));
        r
    }

    fn duplicate(&self) -> (r: std::sync::Arc<A>) {
        std::sync::Arc::new((**self).duplicate())
    }
}

/// The models of the bounds of the ranges in `r`.
pub open spec fn range_models<A: Arbitrary>(r: Seq<core::ops::Range<A>>) -> Seq<
    (A::Model, A::Model),
> {
    r.map_values(|x: core::ops::Range<A>| (x.start.model(), x.end.model()))
}

impl<A: Arbitrary> Arbitrary for core::ops::Range<A> {
    type Model = (A::Model, A::Model);

    open spec fn model(&self) -> (A::Model, A::Model) {
        (self.start.model(), self.end.model())
    }

    open spec fn shrink_spec(m: (A::Model, A::Model)) -> Seq<(A::Model, A::Model)> {
        <(A, A) as Arbitrary>::shrink_spec(m)
    }

    open spec fn weight(m: (A::Model, A::Model)) -> nat {
        <(A, A) as Arbitrary>::weight(m)
    }

    open spec fn within(m: (A::Model, A::Model), size: nat) -> bool {
        <(A, A) as Arbitrary>::within(m, size)
    }

    proof fn lemma_shrink_lighter(m: (A::Model, A::Model)) {
        <(A, A) as Arbitrary>::lemma_shrink_lighter(m);
        assert forall|i: int| 0 <= i < Self::shrink_spec(m).len() implies #[trigger] Self::weight(
            Self::shrink_spec(m)[i],
        ) < Self::weight(m) by {
            assert(<(A, A) as Arbitrary>::weight(<(A, A) as Arbitrary>::shrink_spec(m)[i])
                < <(A, A) as Arbitrary>::weight(m));
        }
    }

    fn arbitrary(g: &mut Gen) -> (r: core::ops::Range<A>) {
        let start = A::arbitrary(g);
        let end = A::arbitrary(g);
        start..end
    }

    fn shrink(&self) -> (r: Vec<core::ops::Range<A>>) {
        let pair = (self.start.duplicate(), self.end.duplicate());
        let xs = pair.shrink();
        let ghost cands = <(A, A) as Arbitrary>::shrink_spec(self.model());
        let mut r: Vec<core::ops::Range<A>> = Vec::new();
        let mut k: usize = 0;
        assert(range_models(r@) =~= cands.subrange(0, 0));
        while k < xs.len()
            invariant
                k <= xs@.len(),
                xs@.map_values(|x: (A, A)| x.model()) == cands,
                range_models(r@) == cands.subrange(0, k as int),
            decreases xs@.len() - k,
        {
            let start = xs[k].0.duplicate();
            let end = xs[k].1.duplicate();
            let x = start..end;
            let ghost prev = r@;
            r.push(x);
            proof {
                lemma_map_push(
                    prev,
                    x,
                    |x: core::ops::Range<A>| (x.start.model(), x.end.model()),
                );
                assert(xs@[k as int].model() == xs@.map_values(|x: (A, A)| x.model())[k as int]);
                assert(cands.subrange(0, k + 1) =~= cands.subrange(0, k as int).push(cands[k as int]));
            }
            k += 1;
        }
        assert(cands.subrange(0, k as int) =~= cands);
        assert(r@.map_values(|x: Self| x.model()) =~= range_models(r@));
        r
    }

    fn duplicate(&self) -> (r: core::ops::Range<A>) {
        self.start.duplicate()..self.end.duplicate()
    }
}

} // verus!

verus! {

#[verifier::external_type_specification]
#[verifier::reject_recursive_types(T)]
pub struct ExBound<T>(core::ops::Bound<T>);

#[verifier::external_type_specification]
#[verifier::reject_recursive_types(T)]
pub struct ExWrapping<T>(core::num::Wrapping<T>);

/// An included bound at `e` if `included` holds, an excluded one otherwise.
pub open spec fn tagged<M>(included: bool, e: M) -> core::ops::Bound<M> {
    if included {
        core::ops::Bound::Included(e)
    } else {
        core::ops::Bound::Excluded(e)
    }
}

/// The model of a bound.
pub open spec fn bound_model<A: Arbitrary>(b: core::ops::Bound<A>) -> core::ops::Bound<A::Model> {
    match b {
        core::ops::Bound::Included(x) => core::ops::Bound::Included(x.model()),
        core::ops::Bound::Excluded(x) => core::ops::Bound::Excluded(x.model()),
        core::ops::Bound::Unbounded => core::ops::Bound::Unbounded,
    }
}

impl<A: Arbitrary> Arbitrary for core::ops::Bound<A> {
    type Model = core::ops::Bound<A::Model>;

    open spec fn model(&self) -> core::ops::Bound<A::Model> {
        bound_model(*self)
    }

    open spec fn shrink_spec(m: core::ops::Bound<A::Model>) -> Seq<core::ops::Bound<A::Model>> {
        match m {
            core::ops::Bound::Included(x) => A::shrink_spec(x).map_values(
                |e: A::Model| core::ops::Bound::Included(e),
            ),
            core::ops::Bound::Excluded(x) => A::shrink_spec(x).map_values(
                |e: A::Model| core::ops::Bound::Excluded(e),
            ),
            core::ops::Bound::Unbounded => seq![],
        }
    }

    open spec fn weight(m: core::ops::Bound<A::Model>) -> nat {
        match m {
            core::ops::Bound::Included(x) => A::weight(x),
            core::ops::Bound::Excluded(x) => A::weight(x),
            core::ops::Bound::Unbounded => 0,
        }
    }

    open spec fn within(m: core::ops::Bound<A::Model>, size: nat) -> bool {
        match m {
            core::ops::Bound::Included(x) => A::within(x, size),
            core::ops::Bound::Excluded(x) => A::within(x, size),
            core::ops::Bound::Unbounded => true,
        }
    }

    proof fn lemma_shrink_lighter(m: core::ops::Bound<A::Model>) {
        match m {
            core::ops::Bound::Included(x) => {
                A::lemma_shrink_lighter(x);
                assert forall|i: int| 0 <= i < Self::shrink_spec(m).len() implies #[trigger] Self::weight(
                    Self::shrink_spec(m)[i],
                ) < Self::weight(m) by {
                    assert(Self::shrink_spec(m)[i] == core::ops::Bound::Included(A::shrink_spec(x)[i]));
                }
            },
            core::ops::Bound::Excluded(x) => {
                A::lemma_shrink_lighter(x);
                assert forall|i: int| 0 <= i < Self::shrink_spec(m).len() implies #[trigger] Self::weight(
                    Self::shrink_spec(m)[i],
                ) < Self::weight(m) by {
                    assert(Self::shrink_spec(m)[i] == core::ops::Bound::Excluded(A::shrink_spec(x)[i]));
                }
            },
            core::ops::Bound::Unbounded => {},
        }
    }

    fn arbitrary(g: &mut Gen) -> (r: core::ops::Bound<A>) {
        let kind = g.gen_range(0, 3);
        if kind == 0 {
            core::ops::Bound::Included(A::arbitrary(g))
        } else if kind == 1 {
            core::ops::Bound::Excluded(A::arbitrary(g))
        } else {
            core::ops::Bound::Unbounded
        }
    }

    fn shrink(&self) -> (r: Vec<core::ops::Bound<A>>) {
        let mut r: Vec<core::ops::Bound<A>> = Vec::new();
        let included = match self {
            core::ops::Bound::Included(_) => true,
            _ => false,
        };
        let inner = match self {
            core::ops::Bound::Included(x) => x,
            core::ops::Bound::Excluded(x) => x,
            core::ops::Bound::Unbounded => {
                assert(r@.map_values(|x: Self| x.model()) =~= Self::shrink_spec(self.model()));
                return r;
            },
        };
        let xs = inner.shrink();
        let ghost cands = A::shrink_spec(inner.model());
        let mut k: usize = 0;
        assert(r@.map_values(|b: core::ops::Bound<A>| bound_model(b)) =~= cands.subrange(
            0,
            0,
        ).map_values(|e: A::Model| tagged(included, e)));
        while k < xs.len()
            invariant
                k <= xs@.len(),
                models(xs@) == cands,
                r@.map_values(|b: core::ops::Bound<A>| bound_model(b)) == cands.subrange(
                    0,
                    k as int,
                ).map_values(|e: A::Model| tagged(included, e)),
            decreases xs@.len() - k,
        {
            let e = xs[k].duplicate();
            let b = if included {
                core::ops::Bound::Included(e)
            } else {
                core::ops::Bound::Excluded(e)
            };
            let ghost prev = r@;
            r.push(b);
            proof {
                lemma_map_push(prev, b, |b: core::ops::Bound<A>| bound_model(b));
                assert(xs@[k as int].model() == models(xs@)[k as int]);
                assert(cands.subrange(0, k + 1).map_values(|e: A::Model| tagged(included, e)) =~= cands.subrange(
                    0,
                    k as int,
                ).map_values(|e: A::Model| tagged(included, e)).push(tagged(included, cands[k as int])));
            }
            k += 1;
        }
        assert(cands.subrange(0, k as int) =~= cands);
        assert(r@.map_values(|x: Self| x.model()) =~= r@.map_values(
            |b: core::ops::Bound<A>| bound_model(b),
        ));
        assert(cands.map_values(|e: A::Model| tagged(included, e)) =~= Self::shrink_spec(
            self.model(),
        ));
        r
    }

    fn duplicate(&self) -> (r: core::ops::Bound<A>) {
        match self {
            core::ops::Bound::Included(x) => core::ops::Bound::Included(x.duplicate()),
            core::ops::Bound::Excluded(x) => core::ops::Bound::Excluded(x.duplicate()),
            core::ops::Bound::Unbounded => core::ops::Bound::Unbounded,
        }
    }
}

impl<A: Arbitrary> Arbitrary for core::num::Wrapping<A> {
    type Model = A::Model;

    open spec fn model(&self) -> A::Model {
        self.0.model()
    }

    open spec fn shrink_spec(m: A::Model) -> Seq<A::Model> {
        A::shrink_spec(m)
    }

    open spec fn weight(m: A::Model) -> nat {
        A::weight(m)
    }

    open spec fn within(m: A::Model, size: nat) -> bool {
        A::within(m, size)
    }

    proof fn lemma_shrink_lighter(m: A::Model) {
        A::lemma_shrink_lighter(m);
    }

    fn arbitrary(g: &mut Gen) -> (r: core::num::Wrapping<A>) {
        core::num::Wrapping(A::arbitrary(g))
    }

    fn shrink(&self) -> (r: Vec<core::num::Wrapping<A>>) {
        let xs = self.0.shrink();
        let ghost cands = A::shrink_spec(self.0.model());
        let mut r: Vec<core::num::Wrapping<A>> = Vec::new();
        let mut k: usize = 0;
        assert(r@.map_values(|w: core::num::Wrapping<A>| w.0.model()) =~= cands.subrange(0, 0));
        while k < xs.len()
            invariant
                k <= xs@.len(),
                models(xs@) == cands,
                r@.map_values(|w: core::num::Wrapping<A>| w.0.model()) == cands.subrange(0, k as int),
            decreases xs@.len() - k,
        {
            let w = core::num::Wrapping(xs[k].duplicate());
            let ghost prev = r@;
            r.push(w);
            proof {
                lemma_map_push(prev, w, |w: core::num::Wrapping<A>| w.0.model());
                assert(xs@[k as int].model() == models(xs@)[k as int]);
                assert(cands.subrange(0, k + 1) =~= cands.subrange(0, k as int).push(cands[k as int]));
            }
            k += 1;
        }
        assert(cands.subrange(0, k as int) =~= cands);
        assert(r@.map_values(|x: Self| x.model()) =~= r@.map_values(
            |w: core::num::Wrapping<A>| w.0.model(),
        ));
        r
    }

    fn duplicate(&self) -> (r: core::num::Wrapping<A>) {
        core::num::Wrapping(self.0.duplicate())
    }
}

} // verus!

verus! {

#[verifier::external_type_specification]
#[verifier::reject_recursive_types(T)]
pub struct ExRangeFrom<T>(core::ops::RangeFrom<T>);

#[verifier::external_type_specification]
#[verifier::reject_recursive_types(T)]
pub struct ExRangeTo<T>(core::ops::RangeTo<T>);

#[verifier::external_type_specification]
#[verifier::reject_recursive_types(T)]
pub struct ExRangeToInclusive<T>(core::ops::RangeToInclusive<T>);

#[verifier::external_type_specification]
pub struct ExRangeFull(core::ops::RangeFull);

impl<A: Arbitrary> Arbitrary for core::ops::RangeFrom<A> {
    type Model = A::Model;

    open spec fn model(&self) -> A::Model {
        self.start.model()
    }

    open spec fn shrink_spec(m: A::Model) -> Seq<A::Model> {
        A::shrink_spec(m)
    }

    open spec fn weight(m: A::Model) -> nat {
        A::weight(m)
    }

    open spec fn within(m: A::Model, size: nat) -> bool {
        A::within(m, size)
    }

    proof fn lemma_shrink_lighter(m: A::Model) {
        A::lemma_shrink_lighter(m);
    }

    fn arbitrary(g: &mut Gen) -> (r: core::ops::RangeFrom<A>) {
        let e = A::arbitrary(g);
        e..
    }

    fn shrink(&self) -> (r: Vec<core::ops::RangeFrom<A>>) {
        let xs = self.start.shrink();
        let ghost cands = A::shrink_spec(self.start.model());
        let mut r: Vec<core::ops::RangeFrom<A>> = Vec::new();
        let mut k: usize = 0;
        assert(r@.map_values(|w: core::ops::RangeFrom<A>| w.start.model()) =~= cands.subrange(0, 0));
        while k < xs.len()
            invariant
                k <= xs@.len(),
                models(xs@) == cands,
                r@.map_values(|w: core::ops::RangeFrom<A>| w.start.model()) == cands.subrange(0, k as int),
            decreases xs@.len() - k,
        {
            let e = xs[k].duplicate();
            let w = e..;
            let ghost prev = r@;
            r.push(w);
            proof {
                lemma_map_push(prev, w, |w: core::ops::RangeFrom<A>| w.start.model());
                assert(xs@[k as int].model() == models(xs@)[k as int]);
                assert(cands.subrange(0, k + 1) =~= cands.subrange(0, k as int).push(cands[k as int]));
            }
            k += 1;
        }
        assert(cands.subrange(0, k as int) =~= cands);
        assert(r@.map_values(|x: Self| x.model()) =~= r@.map_values(|w: core::ops::RangeFrom<A>| w.start.model()));
        r
    }

    fn duplicate(&self) -> (r: core::ops::RangeFrom<A>) {
        let e = self.start.duplicate();
        e..
    }
}

impl<A: Arbitrary> Arbitrary for core::ops::RangeTo<A> {
    type Model = A::Model;

    open spec fn model(&self) -> A::Model {
        self.end.model()
    }

    open spec fn shrink_spec(m: A::Model) -> Seq<A::Model> {
        A::shrink_spec(m)
    }

    open spec fn weight(m: A::Model) -> nat {
        A::weight(m)
    }

    open spec fn within(m: A::Model, size: nat) -> bool {
        A::within(m, size)
    }

    proof fn lemma_shrink_lighter(m: A::Model) {
        A::lemma_shrink_lighter(m);
    }

    fn arbitrary(g: &mut Gen) -> (r: core::ops::RangeTo<A>) {
        let e = A::arbitrary(g);
        ..e
    }

    fn shrink(&self) -> (r: Vec<core::ops::RangeTo<A>>) {
        let xs = self.end.shrink();
        let ghost cands = A::shrink_spec(self.end.model());
        let mut r: Vec<core::ops::RangeTo<A>> = Vec::new();
        let mut k: usize = 0;
        assert(r@.map_values(|w: core::ops::RangeTo<A>| w.end.model()) =~= cands.subrange(0, 0));
        while k < xs.len()
            invariant
                k <= xs@.len(),
                models(xs@) == cands,
                r@.map_values(|w: core::ops::RangeTo<A>| w.end.model()) == cands.subrange(0, k as int),
            decreases xs@.len() - k,
        {
            let e = xs[k].duplicate();
            let w = ..e;
            let ghost prev = r@;
            r.push(w);
            proof {
                lemma_map_push(prev, w, |w: core::ops::RangeTo<A>| w.end.model());
                assert(xs@[k as int].model() == models(xs@)[k as int]);
                assert(cands.subrange(0, k + 1) =~= cands.subrange(0, k as int).push(cands[k as int]));
            }
            k += 1;
        }
        assert(cands.subrange(0, k as int) =~= cands);
        assert(r@.map_values(|x: Self| x.model()) =~= r@.map_values(|w: core::ops::RangeTo<A>| w.end.model()));
        r
    }

    fn duplicate(&self) -> (r: core::ops::RangeTo<A>) {
        let e = self.end.duplicate();
        ..e
    }
}

impl<A: Arbitrary> Arbitrary for core::ops::RangeToInclusive<A> {
    type Model = A::Model;

    open spec fn model(&self) -> A::Model {
        self.end.model()
    }

    open spec fn shrink_spec(m: A::Model) -> Seq<A::Model> {
        A::shrink_spec(m)
    }

    open spec fn weight(m: A::Model) -> nat {
        A::weight(m)
    }

    open spec fn within(m: A::Model, size: nat) -> bool {
        A::within(m, size)
    }

    proof fn lemma_shrink_lighter(m: A::Model) {
        A::lemma_shrink_lighter(m);
    }

    fn arbitrary(g: &mut Gen) -> (r: core::ops::RangeToInclusive<A>) {
        let e = A::arbitrary(g);
        ..=e
    }

    fn shrink(&self) -> (r: Vec<core::ops::RangeToInclusive<A>>) {
        let xs = self.end.shrink();
        let ghost cands = A::shrink_spec(self.end.model());
        let mut r: Vec<core::ops::RangeToInclusive<A>> = Vec::new();
        let mut k: usize = 0;
        assert(r@.map_values(|w: core::ops::RangeToInclusive<A>| w.end.model()) =~= cands.subrange(0, 0));
        while k < xs.len()
            invariant
                k <= xs@.len(),
                models(xs@) == cands,
                r@.map_values(|w: core::ops::RangeToInclusive<A>| w.end.model()) == cands.subrange(0, k as int),
            decreases xs@.len() - k,
        {
            let e = xs[k].duplicate();
            let w = ..=e;
            let ghost prev = r@;
            r.push(w);
            proof {
                lemma_map_push(prev, w, |w: core::ops::RangeToInclusive<A>| w.end.model());
                assert(xs@[k as int].model() == models(xs@)[k as int]);
                assert(cands.subrange(0, k + 1) =~= cands.subrange(0, k as int).push(cands[k as int]));
            }
            k += 1;
        }
        assert(cands.subrange(0, k as int) =~= cands);
        assert(r@.map_values(|x: Self| x.model()) =~= r@.map_values(|w: core::ops::RangeToInclusive<A>| w.end.model()));
        r
    }

    fn duplicate(&self) -> (r: core::ops::RangeToInclusive<A>) {
        let e = self.end.duplicate();
        ..=e
    }
}

impl Arbitrary for core::ops::RangeFull {
    type Model = ();

    open spec fn model(&self) -> () {
        ()
    }

    open spec fn shrink_spec(m: ()) -> Seq<()> {
        seq![]
    }

    open spec fn weight(m: ()) -> nat {
        0
    }

    open spec fn within(m: (), size: nat) -> bool {
        true
    }

    proof fn lemma_shrink_lighter(m: ()) {
    }

    fn arbitrary(g: &mut Gen) -> (r: core::ops::RangeFull) {
        ..
    }

    fn shrink(&self) -> (r: Vec<core::ops::RangeFull>) {
        let r: Vec<core::ops::RangeFull> = Vec::new();
        assert(r@.map_values(|x: Self| x.model()) =~= Seq::<()>::empty());
        r
    }

    fn duplicate(&self) -> (r: core::ops::RangeFull) {
        ..
    }
}

} // verus!

