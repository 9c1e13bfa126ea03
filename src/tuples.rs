//! Generation and shrinking of tuples.
//!
//! A tuple is drawn one component after the other, left to right. It shrinks
//! one position at a time: every candidate of the first component with the
//! others unchanged, then every candidate of the second, and so on.
use vstd::prelude::*;

use crate::arbitrary::{lemma_map_push, Arbitrary};
use crate::gen::Gen;
use crate::sequences::models;

verus! {

/// The models of the tuples in `r`.
pub open spec fn tuple1_models<A: Arbitrary>(r: Seq<(A,)>) -> Seq<(A::Model,)> {
    r.map_values(|t: (A,)| (t.0.model(),))
}

impl<A: Arbitrary> Arbitrary for (A,) {
    type Model = (A::Model,);

    open spec fn model(&self) -> (A::Model,) {
        (self.0.model(),)
    }

    open spec fn shrink_spec(m: (A::Model,)) -> Seq<(A::Model,)> {
        A::shrink_spec(m.0).map_values(|x: A::Model| (x,))
    }

    open spec fn weight(m: (A::Model,)) -> nat {
        A::weight(m.0)
    }

    open spec fn within(m: (A::Model,), size: nat) -> bool {
        A::within(m.0, size)
    }

    proof fn lemma_shrink_lighter(m: (A::Model,)) {
        A::lemma_shrink_lighter(m.0);
        let p0 = A::shrink_spec(m.0).map_values(|x: A::Model| (x,));
        assert forall|i: int| 0 <= i < Self::shrink_spec(m).len() implies #[trigger] Self::weight(
            Self::shrink_spec(m)[i],
        ) < Self::weight(m) by {
            if i < p0.len() {
                assert(Self::shrink_spec(m)[i] == p0[i]);
                assert(A::weight(A::shrink_spec(m.0)[i]) < A::weight(m.0));
            }
        }
    }

    fn arbitrary(g: &mut Gen) -> (r: (A,)) {
        let x0 = A::arbitrary(g);
        (x0,)
    }

    fn shrink(&self) -> (r: Vec<(A,)>) {
        let ghost m = (self.0.model(),);
        let mut r: Vec<(A,)> = Vec::new();
        let ghost done = Seq::<(A::Model,)>::empty();
        assert(tuple1_models(r@) =~= done);
        let ghost part = A::shrink_spec(m.0).map_values(|x: A::Model| (x,));
        let xs = self.0.shrink();
        assert(part.subrange(0, 0) =~= Seq::<(A::Model,)>::empty());
        assert(done + part.subrange(0, 0) =~= done);
        let mut c: usize = 0;
        while c < xs.len()
            invariant
                m == (self.0.model(),),
                part == A::shrink_spec(m.0).map_values(|x: A::Model| (x,)),
                models(xs@) == A::shrink_spec(m.0),
                c <= xs@.len(),
                tuple1_models(r@) == done + part.subrange(0, c as int),
            decreases xs@.len() - c,
        {
            let t = (xs[c].duplicate(),);
            let ghost prev = r@;
            r.push(t);
            proof {
                lemma_map_push(prev, t, |t: (A,)| (t.0.model(),));
                assert(xs@[c as int].model() == models(xs@)[c as int]);
                assert(part.subrange(0, c + 1) =~= part.subrange(0, c as int).push(part[c as int]));
                assert(done + part.subrange(0, c + 1) =~= (done + part.subrange(0, c as int)).push(part[c as int]));
            }
            c += 1;
        }
        assert(part.subrange(0, c as int) =~= part);
        proof {
            done = done + part;
        }
        assert(r@.map_values(|x: Self| x.model()) =~= tuple1_models(r@));
        r
    }

    fn duplicate(&self) -> (r: (A,)) {
        (self.0.duplicate(),)
    }
}

/// The models of the tuples in `r`.
pub open spec fn tuple2_models<A: Arbitrary, B: Arbitrary>(r: Seq<(A, B)>) -> Seq<(A::Model, B::Model)> {
    r.map_values(|t: (A, B)| (t.0.model(), t.1.model()))
}

impl<A: Arbitrary, B: Arbitrary> Arbitrary for (A, B) {
    type Model = (A::Model, B::Model);

    open spec fn model(&self) -> (A::Model, B::Model) {
        (self.0.model(), self.1.model())
    }

    open spec fn shrink_spec(m: (A::Model, B::Model)) -> Seq<(A::Model, B::Model)> {
        A::shrink_spec(m.0).map_values(|x: A::Model| (x, m.1))
            + B::shrink_spec(m.1).map_values(|x: B::Model| (m.0, x))
    }

    open spec fn weight(m: (A::Model, B::Model)) -> nat {
        A::weight(m.0) + B::weight(m.1)
    }

    open spec fn within(m: (A::Model, B::Model), size: nat) -> bool {
        A::within(m.0, size)
            && B::within(m.1, size)
    }

    proof fn lemma_shrink_lighter(m: (A::Model, B::Model)) {
        A::lemma_shrink_lighter(m.0);
        B::lemma_shrink_lighter(m.1);
        let p0 = A::shrink_spec(m.0).map_values(|x: A::Model| (x, m.1));
        let p1 = B::shrink_spec(m.1).map_values(|x: B::Model| (m.0, x));
        assert forall|i: int| 0 <= i < Self::shrink_spec(m).len() implies #[trigger] Self::weight(
            Self::shrink_spec(m)[i],
        ) < Self::weight(m) by {
            if i < p0.len() {
                assert(Self::shrink_spec(m)[i] == p0[i]);
                assert(A::weight(A::shrink_spec(m.0)[i]) < A::weight(m.0));
            } else if i < p0.len() + p1.len() {
                assert(Self::shrink_spec(m)[i] == p1[i - (p0.len())]);
                assert(B::weight(B::shrink_spec(m.1)[i - (p0.len())]) < B::weight(m.1));
            }
        }
    }

    fn arbitrary(g: &mut Gen) -> (r: (A, B)) {
        let x0 = A::arbitrary(g);
        let x1 = B::arbitrary(g);
        (x0, x1)
    }

    fn shrink(&self) -> (r: Vec<(A, B)>) {
        let ghost m = (self.0.model(), self.1.model());
        let mut r: Vec<(A, B)> = Vec::new();
        let ghost done = Seq::<(A::Model, B::Model)>::empty();
        assert(tuple2_models(r@) =~= done);
        let ghost part = A::shrink_spec(m.0).map_values(|x: A::Model| (x, m.1));
        let xs = self.0.shrink();
        assert(part.subrange(0, 0) =~= Seq::<(A::Model, B::Model)>::empty());
        assert(done + part.subrange(0, 0) =~= done);
        let mut c: usize = 0;
        while c < xs.len()
            invariant
                m == (self.0.model(), self.1.model()),
                part == A::shrink_spec(m.0).map_values(|x: A::Model| (x, m.1)),
                models(xs@) == A::shrink_spec(m.0),
                c <= xs@.len(),
                tuple2_models(r@) == done + part.subrange(0, c as int),
            decreases xs@.len() - c,
        {
            let t = (xs[c].duplicate(), self.1.duplicate());
            let ghost prev = r@;
            r.push(t);
            proof {
                lemma_map_push(prev, t, |t: (A, B)| (t.0.model(), t.1.model()));
                assert(xs@[c as int].model() == models(xs@)[c as int]);
                assert(part.subrange(0, c + 1) =~= part.subrange(0, c as int).push(part[c as int]));
                assert(done + part.subrange(0, c + 1) =~= (done + part.subrange(0, c as int)).push(part[c as int]));
            }
            c += 1;
        }
        assert(part.subrange(0, c as int) =~= part);
        proof {
            done = done + part;
        }
        let ghost part = B::shrink_spec(m.1).map_values(|x: B::Model| (m.0, x));
        let xs = self.1.shrink();
        assert(part.subrange(0, 0) =~= Seq::<(A::Model, B::Model)>::empty());
        assert(done + part.subrange(0, 0) =~= done);
        let mut c: usize = 0;
        while c < xs.len()
            invariant
                m == (self.0.model(), self.1.model()),
                part == B::shrink_spec(m.1).map_values(|x: B::Model| (m.0, x)),
                models(xs@) == B::shrink_spec(m.1),
                c <= xs@.len(),
                tuple2_models(r@) == done + part.subrange(0, c as int),
            decreases xs@.len() - c,
        {
            let t = (self.0.duplicate(), xs[c].duplicate());
            let ghost prev = r@;
            r.push(t);
            proof {
                lemma_map_push(prev, t, |t: (A, B)| (t.0.model(), t.1.model()));
                assert(xs@[c as int].model() == models(xs@)[c as int]);
                assert(part.subrange(0, c + 1) =~= part.subrange(0, c as int).push(part[c as int]));
                assert(done + part.subrange(0, c + 1) =~= (done + part.subrange(0, c as int)).push(part[c as int]));
            }
            c += 1;
        }
        assert(part.subrange(0, c as int) =~= part);
        proof {
            done = done + part;
        }
        assert(r@.map_values(|x: Self| x.model()) =~= tuple2_models(r@));
        r
    }

    fn duplicate(&self) -> (r: (A, B)) {
        (self.0.duplicate(), self.1.duplicate())
    }
}

/// The models of the tuples in `r`.
pub open spec fn tuple3_models<A: Arbitrary, B: Arbitrary, C: Arbitrary>(r: Seq<(A, B, C)>) -> Seq<(A::Model, B::Model, C::Model)> {
    r.map_values(|t: (A, B, C)| (t.0.model(), t.1.model(), t.2.model()))
}

impl<A: Arbitrary, B: Arbitrary, C: Arbitrary> Arbitrary for (A, B, C) {
    type Model = (A::Model, B::Model, C::Model);

    open spec fn model(&self) -> (A::Model, B::Model, C::Model) {
        (self.0.model(), self.1.model(), self.2.model())
    }

    open spec fn shrink_spec(m: (A::Model, B::Model, C::Model)) -> Seq<(A::Model, B::Model, C::Model)> {
        A::shrink_spec(m.0).map_values(|x: A::Model| (x, m.1, m.2))
            + B::shrink_spec(m.1).map_values(|x: B::Model| (m.0, x, m.2))
            + C::shrink_spec(m.2).map_values(|x: C::Model| (m.0, m.1, x))
    }

    open spec fn weight(m: (A::Model, B::Model, C::Model)) -> nat {
        A::weight(m.0) + B::weight(m.1) + C::weight(m.2)
    }

    open spec fn within(m: (A::Model, B::Model, C::Model), size: nat) -> bool {
        A::within(m.0, size)
            && B::within(m.1, size)
            && C::within(m.2, size)
    }

    proof fn lemma_shrink_lighter(m: (A::Model, B::Model, C::Model)) {
        A::lemma_shrink_lighter(m.0);
        B::lemma_shrink_lighter(m.1);
        C::lemma_shrink_lighter(m.2);
        let p0 = A::shrink_spec(m.0).map_values(|x: A::Model| (x, m.1, m.2));
        let p1 = B::shrink_spec(m.1).map_values(|x: B::Model| (m.0, x, m.2));
        let p2 = C::shrink_spec(m.2).map_values(|x: C::Model| (m.0, m.1, x));
        assert forall|i: int| 0 <= i < Self::shrink_spec(m).len() implies #[trigger] Self::weight(
            Self::shrink_spec(m)[i],
        ) < Self::weight(m) by {
            if i < p0.len() {
                assert(Self::shrink_spec(m)[i] == p0[i]);
                assert(A::weight(A::shrink_spec(m.0)[i]) < A::weight(m.0));
            } else if i < p0.len() + p1.len() {
                assert(Self::shrink_spec(m)[i] == p1[i - (p0.len())]);
                assert(B::weight(B::shrink_spec(m.1)[i - (p0.len())]) < B::weight(m.1));
            } else if i < p0.len() + p1.len() + p2.len() {
                assert(Self::shrink_spec(m)[i] == p2[i - (p0.len() + p1.len())]);
                assert(C::weight(C::shrink_spec(m.2)[i - (p0.len() + p1.len())]) < C::weight(m.2));
            }
        }
    }

    fn arbitrary(g: &mut Gen) -> (r: (A, B, C)) {
        let x0 = A::arbitrary(g);
        let x1 = B::arbitrary(g);
        let x2 = C::arbitrary(g);
        (x0, x1, x2)
    }

    fn shrink(&self) -> (r: Vec<(A, B, C)>) {
        let ghost m = (self.0.model(), self.1.model(), self.2.model());
        let mut r: Vec<(A, B, C)> = Vec::new();
        let ghost done = Seq::<(A::Model, B::Model, C::Model)>::empty();
        assert(tuple3_models(r@) =~= done);
        let ghost part = A::shrink_spec(m.0).map_values(|x: A::Model| (x, m.1, m.2));
        let xs = self.0.shrink();
        assert(part.subrange(0, 0) =~= Seq::<(A::Model, B::Model, C::Model)>::empty());
        assert(done + part.subrange(0, 0) =~= done);
        let mut c: usize = 0;
        while c < xs.len()
            invariant
                m == (self.0.model(), self.1.model(), self.2.model()),
                part == A::shrink_spec(m.0).map_values(|x: A::Model| (x, m.1, m.2)),
                models(xs@) == A::shrink_spec(m.0),
                c <= xs@.len(),
                tuple3_models(r@) == done + part.subrange(0, c as int),
            decreases xs@.len() - c,
        {
            let t = (xs[c].duplicate(), self.1.duplicate(), self.2.duplicate());
            let ghost prev = r@;
            r.push(t);
            proof {
                lemma_map_push(prev, t, |t: (A, B, C)| (t.0.model(), t.1.model(), t.2.model()));
                assert(xs@[c as int].model() == models(xs@)[c as int]);
                assert(part.subrange(0, c + 1) =~= part.subrange(0, c as int).push(part[c as int]));
                assert(done + part.subrange(0, c + 1) =~= (done + part.subrange(0, c as int)).push(part[c as int]));
            }
            c += 1;
        }
        assert(part.subrange(0, c as int) =~= part);
        proof {
            done = done + part;
        }
        let ghost part = B::shrink_spec(m.1).map_values(|x: B::Model| (m.0, x, m.2));
        let xs = self.1.shrink();
        assert(part.subrange(0, 0) =~= Seq::<(A::Model, B::Model, C::Model)>::empty());
        assert(done + part.subrange(0, 0) =~= done);
        let mut c: usize = 0;
        while c < xs.len()
            invariant
                m == (self.0.model(), self.1.model(), self.2.model()),
                part == B::shrink_spec(m.1).map_values(|x: B::Model| (m.0, x, m.2)),
                models(xs@) == B::shrink_spec(m.1),
                c <= xs@.len(),
                tuple3_models(r@) == done + part.subrange(0, c as int),
            decreases xs@.len() - c,
        {
            let t = (self.0.duplicate(), xs[c].duplicate(), self.2.duplicate());
            let ghost prev = r@;
            r.push(t);
            proof {
                lemma_map_push(prev, t, |t: (A, B, C)| (t.0.model(), t.1.model(), t.2.model()));
                assert(xs@[c as int].model() == models(xs@)[c as int]);
                assert(part.subrange(0, c + 1) =~= part.subrange(0, c as int).push(part[c as int]));
                assert(done + part.subrange(0, c + 1) =~= (done + part.subrange(0, c as int)).push(part[c as int]));
            }
            c += 1;
        }
        assert(part.subrange(0, c as int) =~= part);
        proof {
            done = done + part;
        }
        let ghost part = C::shrink_spec(m.2).map_values(|x: C::Model| (m.0, m.1, x));
        let xs = self.2.shrink();
        assert(part.subrange(0, 0) =~= Seq::<(A::Model, B::Model, C::Model)>::empty());
        assert(done + part.subrange(0, 0) =~= done);
        let mut c: usize = 0;
        while c < xs.len()
            invariant
                m == (self.0.model(), self.1.model(), self.2.model()),
                part == C::shrink_spec(m.2).map_values(|x: C::Model| (m.0, m.1, x)),
                models(xs@) == C::shrink_spec(m.2),
                c <= xs@.len(),
                tuple3_models(r@) == done + part.subrange(0, c as int),
            decreases xs@.len() - c,
        {
            let t = (self.0.duplicate(), self.1.duplicate(), xs[c].duplicate());
            let ghost prev = r@;
            r.push(t);
            proof {
                lemma_map_push(prev, t, |t: (A, B, C)| (t.0.model(), t.1.model(), t.2.model()));
                assert(xs@[c as int].model() == models(xs@)[c as int]);
                assert(part.subrange(0, c + 1) =~= part.subrange(0, c as int).push(part[c as int]));
                assert(done + part.subrange(0, c + 1) =~= (done + part.subrange(0, c as int)).push(part[c as int]));
            }
            c += 1;
        }
        assert(part.subrange(0, c as int) =~= part);
        proof {
            done = done + part;
        }
        assert(r@.map_values(|x: Self| x.model()) =~= tuple3_models(r@));
        r
    }

    fn duplicate(&self) -> (r: (A, B, C)) {
        (self.0.duplicate(), self.1.duplicate(), self.2.duplicate())
    }
}

/// The models of the tuples in `r`.
pub open spec fn tuple4_models<A: Arbitrary, B: Arbitrary, C: Arbitrary, D: Arbitrary>(r: Seq<(A, B, C, D)>) -> Seq<(A::Model, B::Model, C::Model, D::Model)> {
    r.map_values(|t: (A, B, C, D)| (t.0.model(), t.1.model(), t.2.model(), t.3.model()))
}

impl<A: Arbitrary, B: Arbitrary, C: Arbitrary, D: Arbitrary> Arbitrary for (A, B, C, D) {
    type Model = (A::Model, B::Model, C::Model, D::Model);

    open spec fn model(&self) -> (A::Model, B::Model, C::Model, D::Model) {
        (self.0.model(), self.1.model(), self.2.model(), self.3.model())
    }

    open spec fn shrink_spec(m: (A::Model, B::Model, C::Model, D::Model)) -> Seq<(A::Model, B::Model, C::Model, D::Model)> {
        A::shrink_spec(m.0).map_values(|x: A::Model| (x, m.1, m.2, m.3))
            + B::shrink_spec(m.1).map_values(|x: B::Model| (m.0, x, m.2, m.3))
            + C::shrink_spec(m.2).map_values(|x: C::Model| (m.0, m.1, x, m.3))
            + D::shrink_spec(m.3).map_values(|x: D::Model| (m.0, m.1, m.2, x))
    }

    open spec fn weight(m: (A::Model, B::Model, C::Model, D::Model)) -> nat {
        A::weight(m.0) + B::weight(m.1) + C::weight(m.2) + D::weight(m.3)
    }

    open spec fn within(m: (A::Model, B::Model, C::Model, D::Model), size: nat) -> bool {
        A::within(m.0, size)
            && B::within(m.1, size)
            && C::within(m.2, size)
            && D::within(m.3, size)
    }

    proof fn lemma_shrink_lighter(m: (A::Model, B::Model, C::Model, D::Model)) {
        A::lemma_shrink_lighter(m.0);
        B::lemma_shrink_lighter(m.1);
        C::lemma_shrink_lighter(m.2);
        D::lemma_shrink_lighter(m.3);
        let p0 = A::shrink_spec(m.0).map_values(|x: A::Model| (x, m.1, m.2, m.3));
        let p1 = B::shrink_spec(m.1).map_values(|x: B::Model| (m.0, x, m.2, m.3));
        let p2 = C::shrink_spec(m.2).map_values(|x: C::Model| (m.0, m.1, x, m.3));
        let p3 = D::shrink_spec(m.3).map_values(|x: D::Model| (m.0, m.1, m.2, x));
        assert forall|i: int| 0 <= i < Self::shrink_spec(m).len() implies #[trigger] Self::weight(
            Self::shrink_spec(m)[i],
        ) < Self::weight(m) by {
            if i < p0.len() {
                assert(Self::shrink_spec(m)[i] == p0[i]);
                assert(A::weight(A::shrink_spec(m.0)[i]) < A::weight(m.0));
            } else if i < p0.len() + p1.len() {
                assert(Self::shrink_spec(m)[i] == p1[i - (p0.len())]);
                assert(B::weight(B::shrink_spec(m.1)[i - (p0.len())]) < B::weight(m.1));
            } else if i < p0.len() + p1.len() + p2.len() {
                assert(Self::shrink_spec(m)[i] == p2[i - (p0.len() + p1.len())]);
                assert(C::weight(C::shrink_spec(m.2)[i - (p0.len() + p1.len())]) < C::weight(m.2));
            } else if i < p0.len() + p1.len() + p2.len() + p3.len() {
                assert(Self::shrink_spec(m)[i] == p3[i - (p0.len() + p1.len() + p2.len())]);
                assert(D::weight(D::shrink_spec(m.3)[i - (p0.len() + p1.len() + p2.len())]) < D::weight(m.3));
            }
        }
    }

    fn arbitrary(g: &mut Gen) -> (r: (A, B, C, D)) {
        let x0 = A::arbitrary(g);
        let x1 = B::arbitrary(g);
        let x2 = C::arbitrary(g);
        let x3 = D::arbitrary(g);
        (x0, x1, x2, x3)
    }

    fn shrink(&self) -> (r: Vec<(A, B, C, D)>) {
        let ghost m = (self.0.model(), self.1.model(), self.2.model(), self.3.model());
        let mut r: Vec<(A, B, C, D)> = Vec::new();
        let ghost done = Seq::<(A::Model, B::Model, C::Model, D::Model)>::empty();
        assert(tuple4_models(r@) =~= done);
        let ghost part = A::shrink_spec(m.0).map_values(|x: A::Model| (x, m.1, m.2, m.3));
        let xs = self.0.shrink();
        assert(part.subrange(0, 0) =~= Seq::<(A::Model, B::Model, C::Model, D::Model)>::empty());
        assert(done + part.subrange(0, 0) =~= done);
        let mut c: usize = 0;
        while c < xs.len()
            invariant
                m == (self.0.model(), self.1.model(), self.2.model(), self.3.model()),
                part == A::shrink_spec(m.0).map_values(|x: A::Model| (x, m.1, m.2, m.3)),
                models(xs@) == A::shrink_spec(m.0),
                c <= xs@.len(),
                tuple4_models(r@) == done + part.subrange(0, c as int),
            decreases xs@.len() - c,
        {
            let t = (xs[c].duplicate(), self.1.duplicate(), self.2.duplicate(), self.3.duplicate());
            let ghost prev = r@;
            r.push(t);
            proof {
                lemma_map_push(prev, t, |t: (A, B, C, D)| (t.0.model(), t.1.model(), t.2.model(), t.3.model()));
                assert(xs@[c as int].model() == models(xs@)[c as int]);
                assert(part.subrange(0, c + 1) =~= part.subrange(0, c as int).push(part[c as int]));
                assert(done + part.subrange(0, c + 1) =~= (done + part.subrange(0, c as int)).push(part[c as int]));
            }
            c += 1;
        }
        assert(part.subrange(0, c as int) =~= part);
        proof {
            done = done + part;
        }
        let ghost part = B::shrink_spec(m.1).map_values(|x: B::Model| (m.0, x, m.2, m.3));
        let xs = self.1.shrink();
        assert(part.subrange(0, 0) =~= Seq::<(A::Model, B::Model, C::Model, D::Model)>::empty());
        assert(done + part.subrange(0, 0) =~= done);
        let mut c: usize = 0;
        while c < xs.len()
            invariant
                m == (self.0.model(), self.1.model(), self.2.model(), self.3.model()),
                part == B::shrink_spec(m.1).map_values(|x: B::Model| (m.0, x, m.2, m.3)),
                models(xs@) == B::shrink_spec(m.1),
                c <= xs@.len(),
                tuple4_models(r@) == done + part.subrange(0, c as int),
            decreases xs@.len() - c,
        {
            let t = (self.0.duplicate(), xs[c].duplicate(), self.2.duplicate(), self.3.duplicate());
            let ghost prev = r@;
            r.push(t);
            proof {
                lemma_map_push(prev, t, |t: (A, B, C, D)| (t.0.model(), t.1.model(), t.2.model(), t.3.model()));
                assert(xs@[c as int].model() == models(xs@)[c as int]);
                assert(part.subrange(0, c + 1) =~= part.subrange(0, c as int).push(part[c as int]));
                assert(done + part.subrange(0, c + 1) =~= (done + part.subrange(0, c as int)).push(part[c as int]));
            }
            c += 1;
        }
        assert(part.subrange(0, c as int) =~= part);
        proof {
            done = done + part;
        }
        let ghost part = C::shrink_spec(m.2).map_values(|x: C::Model| (m.0, m.1, x, m.3));
        let xs = self.2.shrink();
        assert(part.subrange(0, 0) =~= Seq::<(A::Model, B::Model, C::Model, D::Model)>::empty());
        assert(done + part.subrange(0, 0) =~= done);
        let mut c: usize = 0;
        while c < xs.len()
            invariant
                m == (self.0.model(), self.1.model(), self.2.model(), self.3.model()),
                part == C::shrink_spec(m.2).map_values(|x: C::Model| (m.0, m.1, x, m.3)),
                models(xs@) == C::shrink_spec(m.2),
                c <= xs@.len(),
                tuple4_models(r@) == done + part.subrange(0, c as int),
            decreases xs@.len() - c,
        {
            let t = (self.0.duplicate(), self.1.duplicate(), xs[c].duplicate(), self.3.duplicate());
            let ghost prev = r@;
            r.push(t);
            proof {
                lemma_map_push(prev, t, |t: (A, B, C, D)| (t.0.model(), t.1.model(), t.2.model(), t.3.model()));
                assert(xs@[c as int].model() == models(xs@)[c as int]);
                assert(part.subrange(0, c + 1) =~= part.subrange(0, c as int).push(part[c as int]));
                assert(done + part.subrange(0, c + 1) =~= (done + part.subrange(0, c as int)).push(part[c as int]));
            }
            c += 1;
        }
        assert(part.subrange(0, c as int) =~= part);
        proof {
            done = done + part;
        }
        let ghost part = D::shrink_spec(m.3).map_values(|x: D::Model| (m.0, m.1, m.2, x));
        let xs = self.3.shrink();
        assert(part.subrange(0, 0) =~= Seq::<(A::Model, B::Model, C::Model, D::Model)>::empty());
        assert(done + part.subrange(0, 0) =~= done);
        let mut c: usize = 0;
        while c < xs.len()
            invariant
                m == (self.0.model(), self.1.model(), self.2.model(), self.3.model()),
                part == D::shrink_spec(m.3).map_values(|x: D::Model| (m.0, m.1, m.2, x)),
                models(xs@) == D::shrink_spec(m.3),
                c <= xs@.len(),
                tuple4_models(r@) == done + part.subrange(0, c as int),
            decreases xs@.len() - c,
        {
            let t = (self.0.duplicate(), self.1.duplicate(), self.2.duplicate(), xs[c].duplicate());
            let ghost prev = r@;
            r.push(t);
            proof {
                lemma_map_push(prev, t, |t: (A, B, C, D)| (t.0.model(), t.1.model(), t.2.model(), t.3.model()));
                assert(xs@[c as int].model() == models(xs@)[c as int]);
                assert(part.subrange(0, c + 1) =~= part.subrange(0, c as int).push(part[c as int]));
                assert(done + part.subrange(0, c + 1) =~= (done + part.subrange(0, c as int)).push(part[c as int]));
            }
            c += 1;
        }
        assert(part.subrange(0, c as int) =~= part);
        proof {
            done = done + part;
        }
        assert(r@.map_values(|x: Self| x.model()) =~= tuple4_models(r@));
        r
    }

    fn duplicate(&self) -> (r: (A, B, C, D)) {
        (self.0.duplicate(), self.1.duplicate(), self.2.duplicate(), self.3.duplicate())
    }
}

/// The models of the tuples in `r`.
pub open spec fn tuple5_models<A: Arbitrary, B: Arbitrary, C: Arbitrary, D: Arbitrary, E: Arbitrary>(r: Seq<(A, B, C, D, E)>) -> Seq<(A::Model, B::Model, C::Model, D::Model, E::Model)> {
    r.map_values(|t: (A, B, C, D, E)| (t.0.model(), t.1.model(), t.2.model(), t.3.model(), t.4.model()))
}

impl<A: Arbitrary, B: Arbitrary, C: Arbitrary, D: Arbitrary, E: Arbitrary> Arbitrary for (A, B, C, D, E) {
    type Model = (A::Model, B::Model, C::Model, D::Model, E::Model);

    open spec fn model(&self) -> (A::Model, B::Model, C::Model, D::Model, E::Model) {
        (self.0.model(), self.1.model(), self.2.model(), self.3.model(), self.4.model())
    }

    open spec fn shrink_spec(m: (A::Model, B::Model, C::Model, D::Model, E::Model)) -> Seq<(A::Model, B::Model, C::Model, D::Model, E::Model)> {
        A::shrink_spec(m.0).map_values(|x: A::Model| (x, m.1, m.2, m.3, m.4))
            + B::shrink_spec(m.1).map_values(|x: B::Model| (m.0, x, m.2, m.3, m.4))
            + C::shrink_spec(m.2).map_values(|x: C::Model| (m.0, m.1, x, m.3, m.4))
            + D::shrink_spec(m.3).map_values(|x: D::Model| (m.0, m.1, m.2, x, m.4))
            + E::shrink_spec(m.4).map_values(|x: E::Model| (m.0, m.1, m.2, m.3, x))
    }

    open spec fn weight(m: (A::Model, B::Model, C::Model, D::Model, E::Model)) -> nat {
        A::weight(m.0) + B::weight(m.1) + C::weight(m.2) + D::weight(m.3) + E::weight(m.4)
    }

    open spec fn within(m: (A::Model, B::Model, C::Model, D::Model, E::Model), size: nat) -> bool {
        A::within(m.0, size)
            && B::within(m.1, size)
            && C::within(m.2, size)
            && D::within(m.3, size)
            && E::within(m.4, size)
    }

    proof fn lemma_shrink_lighter(m: (A::Model, B::Model, C::Model, D::Model, E::Model)) {
        A::lemma_shrink_lighter(m.0);
        B::lemma_shrink_lighter(m.1);
        C::lemma_shrink_lighter(m.2);
        D::lemma_shrink_lighter(m.3);
        E::lemma_shrink_lighter(m.4);
        let p0 = A::shrink_spec(m.0).map_values(|x: A::Model| (x, m.1, m.2, m.3, m.4));
        let p1 = B::shrink_spec(m.1).map_values(|x: B::Model| (m.0, x, m.2, m.3, m.4));
        let p2 = C::shrink_spec(m.2).map_values(|x: C::Model| (m.0, m.1, x, m.3, m.4));
        let p3 = D::shrink_spec(m.3).map_values(|x: D::Model| (m.0, m.1, m.2, x, m.4));
        let p4 = E::shrink_spec(m.4).map_values(|x: E::Model| (m.0, m.1, m.2, m.3, x));
        assert forall|i: int| 0 <= i < Self::shrink_spec(m).len() implies #[trigger] Self::weight(
            Self::shrink_spec(m)[i],
        ) < Self::weight(m) by {
            if i < p0.len() {
                assert(Self::shrink_spec(m)[i] == p0[i]);
                assert(A::weight(A::shrink_spec(m.0)[i]) < A::weight(m.0));
            } else if i < p0.len() + p1.len() {
                assert(Self::shrink_spec(m)[i] == p1[i - (p0.len())]);
                assert(B::weight(B::shrink_spec(m.1)[i - (p0.len())]) < B::weight(m.1));
            } else if i < p0.len() + p1.len() + p2.len() {
                assert(Self::shrink_spec(m)[i] == p2[i - (p0.len() + p1.len())]);
                assert(C::weight(C::shrink_spec(m.2)[i - (p0.len() + p1.len())]) < C::weight(m.2));
            } else if i < p0.len() + p1.len() + p2.len() + p3.len() {
                assert(Self::shrink_spec(m)[i] == p3[i - (p0.len() + p1.len() + p2.len())]);
                assert(D::weight(D::shrink_spec(m.3)[i - (p0.len() + p1.len() + p2.len())]) < D::weight(m.3));
            } else if i < p0.len() + p1.len() + p2.len() + p3.len() + p4.len() {
                assert(Self::shrink_spec(m)[i] == p4[i - (p0.len() + p1.len() + p2.len() + p3.len())]);
                assert(E::weight(E::shrink_spec(m.4)[i - (p0.len() + p1.len() + p2.len() + p3.len())]) < E::weight(m.4));
            }
        }
    }

    fn arbitrary(g: &mut Gen) -> (r: (A, B, C, D, E)) {
        let x0 = A::arbitrary(g);
        let x1 = B::arbitrary(g);
        let x2 = C::arbitrary(g);
        let x3 = D::arbitrary(g);
        let x4 = E::arbitrary(g);
        (x0, x1, x2, x3, x4)
    }

    fn shrink(&self) -> (r: Vec<(A, B, C, D, E)>) {
        let ghost m = (self.0.model(), self.1.model(), self.2.model(), self.3.model(), self.4.model());
        let mut r: Vec<(A, B, C, D, E)> = Vec::new();
        let ghost done = Seq::<(A::Model, B::Model, C::Model, D::Model, E::Model)>::empty();
        assert(tuple5_models(r@) =~= done);
        let ghost part = A::shrink_spec(m.0).map_values(|x: A::Model| (x, m.1, m.2, m.3, m.4));
        let xs = self.0.shrink();
        assert(part.subrange(0, 0) =~= Seq::<(A::Model, B::Model, C::Model, D::Model, E::Model)>::empty());
        assert(done + part.subrange(0, 0) =~= done);
        let mut c: usize = 0;
        while c < xs.len()
            invariant
                m == (self.0.model(), self.1.model(), self.2.model(), self.3.model(), self.4.model()),
                part == A::shrink_spec(m.0).map_values(|x: A::Model| (x, m.1, m.2, m.3, m.4)),
                models(xs@) == A::shrink_spec(m.0),
                c <= xs@.len(),
                tuple5_models(r@) == done + part.subrange(0, c as int),
            decreases xs@.len() - c,
        {
            let t = (xs[c].duplicate(), self.1.duplicate(), self.2.duplicate(), self.3.duplicate(), self.4.duplicate());
            let ghost prev = r@;
            r.push(t);
            proof {
                lemma_map_push(prev, t, |t: (A, B, C, D, E)| (t.0.model(), t.1.model(), t.2.model(), t.3.model(), t.4.model()));
                assert(xs@[c as int].model() == models(xs@)[c as int]);
                assert(part.subrange(0, c + 1) =~= part.subrange(0, c as int).push(part[c as int]));
                assert(done + part.subrange(0, c + 1) =~= (done + part.subrange(0, c as int)).push(part[c as int]));
            }
            c += 1;
        }
        assert(part.subrange(0, c as int) =~= part);
        proof {
            done = done + part;
        }
        let ghost part = B::shrink_spec(m.1).map_values(|x: B::Model| (m.0, x, m.2, m.3, m.4));
        let xs = self.1.shrink();
        assert(part.subrange(0, 0) =~= Seq::<(A::Model, B::Model, C::Model, D::Model, E::Model)>::empty());
        assert(done + part.subrange(0, 0) =~= done);
        let mut c: usize = 0;
        while c < xs.len()
            invariant
                m == (self.0.model(), self.1.model(), self.2.model(), self.3.model(), self.4.model()),
                part == B::shrink_spec(m.1).map_values(|x: B::Model| (m.0, x, m.2, m.3, m.4)),
                models(xs@) == B::shrink_spec(m.1),
                c <= xs@.len(),
                tuple5_models(r@) == done + part.subrange(0, c as int),
            decreases xs@.len() - c,
        {
            let t = (self.0.duplicate(), xs[c].duplicate(), self.2.duplicate(), self.3.duplicate(), self.4.duplicate());
            let ghost prev = r@;
            r.push(t);
            proof {
                lemma_map_push(prev, t, |t: (A, B, C, D, E)| (t.0.model(), t.1.model(), t.2.model(), t.3.model(), t.4.model()));
                assert(xs@[c as int].model() == models(xs@)[c as int]);
                assert(part.subrange(0, c + 1) =~= part.subrange(0, c as int).push(part[c as int]));
                assert(done + part.subrange(0, c + 1) =~= (done + part.subrange(0, c as int)).push(part[c as int]));
            }
            c += 1;
        }
        assert(part.subrange(0, c as int) =~= part);
        proof {
            done = done + part;
        }
        let ghost part = C::shrink_spec(m.2).map_values(|x: C::Model| (m.0, m.1, x, m.3, m.4));
        let xs = self.2.shrink();
        assert(part.subrange(0, 0) =~= Seq::<(A::Model, B::Model, C::Model, D::Model, E::Model)>::empty());
        assert(done + part.subrange(0, 0) =~= done);
        let mut c: usize = 0;
        while c < xs.len()
            invariant
                m == (self.0.model(), self.1.model(), self.2.model(), self.3.model(), self.4.model()),
                part == C::shrink_spec(m.2).map_values(|x: C::Model| (m.0, m.1, x, m.3, m.4)),
                models(xs@) == C::shrink_spec(m.2),
                c <= xs@.len(),
                tuple5_models(r@) == done + part.subrange(0, c as int),
            decreases xs@.len() - c,
        {
            let t = (self.0.duplicate(), self.1.duplicate(), xs[c].duplicate(), self.3.duplicate(), self.4.duplicate());
            let ghost prev = r@;
            r.push(t);
            proof {
                lemma_map_push(prev, t, |t: (A, B, C, D, E)| (t.0.model(), t.1.model(), t.2.model(), t.3.model(), t.4.model()));
                assert(xs@[c as int].model() == models(xs@)[c as int]);
                assert(part.subrange(0, c + 1) =~= part.subrange(0, c as int).push(part[c as int]));
                assert(done + part.subrange(0, c + 1) =~= (done + part.subrange(0, c as int)).push(part[c as int]));
            }
            c += 1;
        }
        assert(part.subrange(0, c as int) =~= part);
        proof {
            done = done + part;
        }
        let ghost part = D::shrink_spec(m.3).map_values(|x: D::Model| (m.0, m.1, m.2, x, m.4));
        let xs = self.3.shrink();
        assert(part.subrange(0, 0) =~= Seq::<(A::Model, B::Model, C::Model, D::Model, E::Model)>::empty());
        assert(done + part.subrange(0, 0) =~= done);
        let mut c: usize = 0;
        while c < xs.len()
            invariant
                m == (self.0.model(), self.1.model(), self.2.model(), self.3.model(), self.4.model()),
                part == D::shrink_spec(m.3).map_values(|x: D::Model| (m.0, m.1, m.2, x, m.4)),
                models(xs@) == D::shrink_spec(m.3),
                c <= xs@.len(),
                tuple5_models(r@) == done + part.subrange(0, c as int),
            decreases xs@.len() - c,
        {
            let t = (self.0.duplicate(), self.1.duplicate(), self.2.duplicate(), xs[c].duplicate(), self.4.duplicate());
            let ghost prev = r@;
            r.push(t);
            proof {
                lemma_map_push(prev, t, |t: (A, B, C, D, E)| (t.0.model(), t.1.model(), t.2.model(), t.3.model(), t.4.model()));
                assert(xs@[c as int].model() == models(xs@)[c as int]);
                assert(part.subrange(0, c + 1) =~= part.subrange(0, c as int).push(part[c as int]));
                assert(done + part.subrange(0, c + 1) =~= (done + part.subrange(0, c as int)).push(part[c as int]));
            }
            c += 1;
        }
        assert(part.subrange(0, c as int) =~= part);
        proof {
            done = done + part;
        }
        let ghost part = E::shrink_spec(m.4).map_values(|x: E::Model| (m.0, m.1, m.2, m.3, x));
        let xs = self.4.shrink();
        assert(part.subrange(0, 0) =~= Seq::<(A::Model, B::Model, C::Model, D::Model, E::Model)>::empty());
        assert(done + part.subrange(0, 0) =~= done);
        let mut c: usize = 0;
        while c < xs.len()
            invariant
                m == (self.0.model(), self.1.model(), self.2.model(), self.3.model(), self.4.model()),
                part == E::shrink_spec(m.4).map_values(|x: E::Model| (m.0, m.1, m.2, m.3, x)),
                models(xs@) == E::shrink_spec(m.4),
                c <= xs@.len(),
                tuple5_models(r@) == done + part.subrange(0, c as int),
            decreases xs@.len() - c,
        {
            let t = (self.0.duplicate(), self.1.duplicate(), self.2.duplicate(), self.3.duplicate(), xs[c].duplicate());
            let ghost prev = r@;
            r.push(t);
            proof {
                lemma_map_push(prev, t, |t: (A, B, C, D, E)| (t.0.model(), t.1.model(), t.2.model(), t.3.model(), t.4.model()));
                assert(xs@[c as int].model() == models(xs@)[c as int]);
                assert(part.subrange(0, c + 1) =~= part.subrange(0, c as int).push(part[c as int]));
                assert(done + part.subrange(0, c + 1) =~= (done + part.subrange(0, c as int)).push(part[c as int]));
            }
            c += 1;
        }
        assert(part.subrange(0, c as int) =~= part);
        proof {
            done = done + part;
        }
        assert(r@.map_values(|x: Self| x.model()) =~= tuple5_models(r@));
        r
    }

    fn duplicate(&self) -> (r: (A, B, C, D, E)) {
        (self.0.duplicate(), self.1.duplicate(), self.2.duplicate(), self.3.duplicate(), self.4.duplicate())
    }
}

/// The models of the tuples in `r`.
pub open spec fn tuple6_models<A: Arbitrary, B: Arbitrary, C: Arbitrary, D: Arbitrary, E: Arbitrary, F: Arbitrary>(r: Seq<(A, B, C, D, E, F)>) -> Seq<(A::Model, B::Model, C::Model, D::Model, E::Model, F::Model)> {
    r.map_values(|t: (A, B, C, D, E, F)| (t.0.model(), t.1.model(), t.2.model(), t.3.model(), t.4.model(), t.5.model()))
}

impl<A: Arbitrary, B: Arbitrary, C: Arbitrary, D: Arbitrary, E: Arbitrary, F: Arbitrary> Arbitrary for (A, B, C, D, E, F) {
    type Model = (A::Model, B::Model, C::Model, D::Model, E::Model, F::Model);

    open spec fn model(&self) -> (A::Model, B::Model, C::Model, D::Model, E::Model, F::Model) {
        (self.0.model(), self.1.model(), self.2.model(), self.3.model(), self.4.model(), self.5.model())
    }

    open spec fn shrink_spec(m: (A::Model, B::Model, C::Model, D::Model, E::Model, F::Model)) -> Seq<(A::Model, B::Model, C::Model, D::Model, E::Model, F::Model)> {
        A::shrink_spec(m.0).map_values(|x: A::Model| (x, m.1, m.2, m.3, m.4, m.5))
            + B::shrink_spec(m.1).map_values(|x: B::Model| (m.0, x, m.2, m.3, m.4, m.5))
            + C::shrink_spec(m.2).map_values(|x: C::Model| (m.0, m.1, x, m.3, m.4, m.5))
            + D::shrink_spec(m.3).map_values(|x: D::Model| (m.0, m.1, m.2, x, m.4, m.5))
            + E::shrink_spec(m.4).map_values(|x: E::Model| (m.0, m.1, m.2, m.3, x, m.5))
            + F::shrink_spec(m.5).map_values(|x: F::Model| (m.0, m.1, m.2, m.3, m.4, x))
    }

    open spec fn weight(m: (A::Model, B::Model, C::Model, D::Model, E::Model, F::Model)) -> nat {
        A::weight(m.0) + B::weight(m.1) + C::weight(m.2) + D::weight(m.3) + E::weight(m.4) + F::weight(m.5)
    }

    open spec fn within(m: (A::Model, B::Model, C::Model, D::Model, E::Model, F::Model), size: nat) -> bool {
        A::within(m.0, size)
            && B::within(m.1, size)
            && C::within(m.2, size)
            && D::within(m.3, size)
            && E::within(m.4, size)
            && F::within(m.5, size)
    }

    proof fn lemma_shrink_lighter(m: (A::Model, B::Model, C::Model, D::Model, E::Model, F::Model)) {
        A::lemma_shrink_lighter(m.0);
        B::lemma_shrink_lighter(m.1);
        C::lemma_shrink_lighter(m.2);
        D::lemma_shrink_lighter(m.3);
        E::lemma_shrink_lighter(m.4);
        F::lemma_shrink_lighter(m.5);
        let p0 = A::shrink_spec(m.0).map_values(|x: A::Model| (x, m.1, m.2, m.3, m.4, m.5));
        let p1 = B::shrink_spec(m.1).map_values(|x: B::Model| (m.0, x, m.2, m.3, m.4, m.5));
        let p2 = C::shrink_spec(m.2).map_values(|x: C::Model| (m.0, m.1, x, m.3, m.4, m.5));
        let p3 = D::shrink_spec(m.3).map_values(|x: D::Model| (m.0, m.1, m.2, x, m.4, m.5));
        let p4 = E::shrink_spec(m.4).map_values(|x: E::Model| (m.0, m.1, m.2, m.3, x, m.5));
        let p5 = F::shrink_spec(m.5).map_values(|x: F::Model| (m.0, m.1, m.2, m.3, m.4, x));
        assert forall|i: int| 0 <= i < Self::shrink_spec(m).len() implies #[trigger] Self::weight(
            Self::shrink_spec(m)[i],
        ) < Self::weight(m) by {
            if i < p0.len() {
                assert(Self::shrink_spec(m)[i] == p0[i]);
                assert(A::weight(A::shrink_spec(m.0)[i]) < A::weight(m.0));
            } else if i < p0.len() + p1.len() {
                assert(Self::shrink_spec(m)[i] == p1[i - (p0.len())]);
                assert(B::weight(B::shrink_spec(m.1)[i - (p0.len())]) < B::weight(m.1));
            } else if i < p0.len() + p1.len() + p2.len() {
                assert(Self::shrink_spec(m)[i] == p2[i - (p0.len() + p1.len())]);
                assert(C::weight(C::shrink_spec(m.2)[i - (p0.len() + p1.len())]) < C::weight(m.2));
            } else if i < p0.len() + p1.len() + p2.len() + p3.len() {
                assert(Self::shrink_spec(m)[i] == p3[i - (p0.len() + p1.len() + p2.len())]);
                assert(D::weight(D::shrink_spec(m.3)[i - (p0.len() + p1.len() + p2.len())]) < D::weight(m.3));
            } else if i < p0.len() + p1.len() + p2.len() + p3.len() + p4.len() {
                assert(Self::shrink_spec(m)[i] == p4[i - (p0.len() + p1.len() + p2.len() + p3.len())]);
                assert(E::weight(E::shrink_spec(m.4)[i - (p0.len() + p1.len() + p2.len() + p3.len())]) < E::weight(m.4));
            } else if i < p0.len() + p1.len() + p2.len() + p3.len() + p4.len() + p5.len() {
                assert(Self::shrink_spec(m)[i] == p5[i - (p0.len() + p1.len() + p2.len() + p3.len() + p4.len())]);
                assert(F::weight(F::shrink_spec(m.5)[i - (p0.len() + p1.len() + p2.len() + p3.len() + p4.len())]) < F::weight(m.5));
            }
        }
    }

    fn arbitrary(g: &mut Gen) -> (r: (A, B, C, D, E, F)) {
        let x0 = A::arbitrary(g);
        let x1 = B::arbitrary(g);
        let x2 = C::arbitrary(g);
        let x3 = D::arbitrary(g);
        let x4 = E::arbitrary(g);
        let x5 = F::arbitrary(g);
        (x0, x1, x2, x3, x4, x5)
    }

    fn shrink(&self) -> (r: Vec<(A, B, C, D, E, F)>) {
        let ghost m = (self.0.model(), self.1.model(), self.2.model(), self.3.model(), self.4.model(), self.5.model());
        let mut r: Vec<(A, B, C, D, E, F)> = Vec::new();
        let ghost done = Seq::<(A::Model, B::Model, C::Model, D::Model, E::Model, F::Model)>::empty();
        assert(tuple6_models(r@) =~= done);
        let ghost part = A::shrink_spec(m.0).map_values(|x: A::Model| (x, m.1, m.2, m.3, m.4, m.5));
        let xs = self.0.shrink();
        assert(part.subrange(0, 0) =~= Seq::<(A::Model, B::Model, C::Model, D::Model, E::Model, F::Model)>::empty());
        assert(done + part.subrange(0, 0) =~= done);
        let mut c: usize = 0;
        while c < xs.len()
            invariant
                m == (self.0.model(), self.1.model(), self.2.model(), self.3.model(), self.4.model(), self.5.model()),
                part == A::shrink_spec(m.0).map_values(|x: A::Model| (x, m.1, m.2, m.3, m.4, m.5)),
                models(xs@) == A::shrink_spec(m.0),
                c <= xs@.len(),
                tuple6_models(r@) == done + part.subrange(0, c as int),
            decreases xs@.len() - c,
        {
            let t = (xs[c].duplicate(), self.1.duplicate(), self.2.duplicate(), self.3.duplicate(), self.4.duplicate(), self.5.duplicate());
            let ghost prev = r@;
            r.push(t);
            proof {
                lemma_map_push(prev, t, |t: (A, B, C, D, E, F)| (t.0.model(), t.1.model(), t.2.model(), t.3.model(), t.4.model(), t.5.model()));
                assert(xs@[c as int].model() == models(xs@)[c as int]);
                assert(part.subrange(0, c + 1) =~= part.subrange(0, c as int).push(part[c as int]));
                assert(done + part.subrange(0, c + 1) =~= (done + part.subrange(0, c as int)).push(part[c as int]));
            }
            c += 1;
        }
        assert(part.subrange(0, c as int) =~= part);
        proof {
            done = done + part;
        }
        let ghost part = B::shrink_spec(m.1).map_values(|x: B::Model| (m.0, x, m.2, m.3, m.4, m.5));
        let xs = self.1.shrink();
        assert(part.subrange(0, 0) =~= Seq::<(A::Model, B::Model, C::Model, D::Model, E::Model, F::Model)>::empty());
        assert(done + part.subrange(0, 0) =~= done);
        let mut c: usize = 0;
        while c < xs.len()
            invariant
                m == (self.0.model(), self.1.model(), self.2.model(), self.3.model(), self.4.model(), self.5.model()),
                part == B::shrink_spec(m.1).map_values(|x: B::Model| (m.0, x, m.2, m.3, m.4, m.5)),
                models(xs@) == B::shrink_spec(m.1),
                c <= xs@.len(),
                tuple6_models(r@) == done + part.subrange(0, c as int),
            decreases xs@.len() - c,
        {
            let t = (self.0.duplicate(), xs[c].duplicate(), self.2.duplicate(), self.3.duplicate(), self.4.duplicate(), self.5.duplicate());
            let ghost prev = r@;
            r.push(t);
            proof {
                lemma_map_push(prev, t, |t: (A, B, C, D, E, F)| (t.0.model(), t.1.model(), t.2.model(), t.3.model(), t.4.model(), t.5.model()));
                assert(xs@[c as int].model() == models(xs@)[c as int]);
                assert(part.subrange(0, c + 1) =~= part.subrange(0, c as int).push(part[c as int]));
                assert(done + part.subrange(0, c + 1) =~= (done + part.subrange(0, c as int)).push(part[c as int]));
            }
            c += 1;
        }
        assert(part.subrange(0, c as int) =~= part);
        proof {
            done = done + part;
        }
        let ghost part = C::shrink_spec(m.2).map_values(|x: C::Model| (m.0, m.1, x, m.3, m.4, m.5));
        let xs = self.2.shrink();
        assert(part.subrange(0, 0) =~= Seq::<(A::Model, B::Model, C::Model, D::Model, E::Model, F::Model)>::empty());
        assert(done + part.subrange(0, 0) =~= done);
        let mut c: usize = 0;
        while c < xs.len()
            invariant
                m == (self.0.model(), self.1.model(), self.2.model(), self.3.model(), self.4.model(), self.5.model()),
                part == C::shrink_spec(m.2).map_values(|x: C::Model| (m.0, m.1, x, m.3, m.4, m.5)),
                models(xs@) == C::shrink_spec(m.2),
                c <= xs@.len(),
                tuple6_models(r@) == done + part.subrange(0, c as int),
            decreases xs@.len() - c,
        {
            let t = (self.0.duplicate(), self.1.duplicate(), xs[c].duplicate(), self.3.duplicate(), self.4.duplicate(), self.5.duplicate());
            let ghost prev = r@;
            r.push(t);
            proof {
                lemma_map_push(prev, t, |t: (A, B, C, D, E, F)| (t.0.model(), t.1.model(), t.2.model(), t.3.model(), t.4.model(), t.5.model()));
                assert(xs@[c as int].model() == models(xs@)[c as int]);
                assert(part.subrange(0, c + 1) =~= part.subrange(0, c as int).push(part[c as int]));
                assert(done + part.subrange(0, c + 1) =~= (done + part.subrange(0, c as int)).push(part[c as int]));
            }
            c += 1;
        }
        assert(part.subrange(0, c as int) =~= part);
        proof {
            done = done + part;
        }
        let ghost part = D::shrink_spec(m.3).map_values(|x: D::Model| (m.0, m.1, m.2, x, m.4, m.5));
        let xs = self.3.shrink();
        assert(part.subrange(0, 0) =~= Seq::<(A::Model, B::Model, C::Model, D::Model, E::Model, F::Model)>::empty());
        assert(done + part.subrange(0, 0) =~= done);
        let mut c: usize = 0;
        while c < xs.len()
            invariant
                m == (self.0.model(), self.1.model(), self.2.model(), self.3.model(), self.4.model(), self.5.model()),
                part == D::shrink_spec(m.3).map_values(|x: D::Model| (m.0, m.1, m.2, x, m.4, m.5)),
                models(xs@) == D::shrink_spec(m.3),
                c <= xs@.len(),
                tuple6_models(r@) == done + part.subrange(0, c as int),
            decreases xs@.len() - c,
        {
            let t = (self.0.duplicate(), self.1.duplicate(), self.2.duplicate(), xs[c].duplicate(), self.4.duplicate(), self.5.duplicate());
            let ghost prev = r@;
            r.push(t);
            proof {
                lemma_map_push(prev, t, |t: (A, B, C, D, E, F)| (t.0.model(), t.1.model(), t.2.model(), t.3.model(), t.4.model(), t.5.model()));
                assert(xs@[c as int].model() == models(xs@)[c as int]);
                assert(part.subrange(0, c + 1) =~= part.subrange(0, c as int).push(part[c as int]));
                assert(done + part.subrange(0, c + 1) =~= (done + part.subrange(0, c as int)).push(part[c as int]));
            }
            c += 1;
        }
        assert(part.subrange(0, c as int) =~= part);
        proof {
            done = done + part;
        }
        let ghost part = E::shrink_spec(m.4).map_values(|x: E::Model| (m.0, m.1, m.2, m.3, x, m.5));
        let xs = self.4.shrink();
        assert(part.subrange(0, 0) =~= Seq::<(A::Model, B::Model, C::Model, D::Model, E::Model, F::Model)>::empty());
        assert(done + part.subrange(0, 0) =~= done);
        let mut c: usize = 0;
        while c < xs.len()
            invariant
                m == (self.0.model(), self.1.model(), self.2.model(), self.3.model(), self.4.model(), self.5.model()),
                part == E::shrink_spec(m.4).map_values(|x: E::Model| (m.0, m.1, m.2, m.3, x, m.5)),
                models(xs@) == E::shrink_spec(m.4),
                c <= xs@.len(),
                tuple6_models(r@) == done + part.subrange(0, c as int),
            decreases xs@.len() - c,
        {
            let t = (self.0.duplicate(), self.1.duplicate(), self.2.duplicate(), self.3.duplicate(), xs[c].duplicate(), self.5.duplicate());
            let ghost prev = r@;
            r.push(t);
            proof {
                lemma_map_push(prev, t, |t: (A, B, C, D, E, F)| (t.0.model(), t.1.model(), t.2.model(), t.3.model(), t.4.model(), t.5.model()));
                assert(xs@[c as int].model() == models(xs@)[c as int]);
                assert(part.subrange(0, c + 1) =~= part.subrange(0, c as int).push(part[c as int]));
                assert(done + part.subrange(0, c + 1) =~= (done + part.subrange(0, c as int)).push(part[c as int]));
            }
            c += 1;
        }
        assert(part.subrange(0, c as int) =~= part);
        proof {
            done = done + part;
        }
        let ghost part = F::shrink_spec(m.5).map_values(|x: F::Model| (m.0, m.1, m.2, m.3, m.4, x));
        let xs = self.5.shrink();
        assert(part.subrange(0, 0) =~= Seq::<(A::Model, B::Model, C::Model, D::Model, E::Model, F::Model)>::empty());
        assert(done + part.subrange(0, 0) =~= done);
        let mut c: usize = 0;
        while c < xs.len()
            invariant
                m == (self.0.model(), self.1.model(), self.2.model(), self.3.model(), self.4.model(), self.5.model()),
                part == F::shrink_spec(m.5).map_values(|x: F::Model| (m.0, m.1, m.2, m.3, m.4, x)),
                models(xs@) == F::shrink_spec(m.5),
                c <= xs@.len(),
                tuple6_models(r@) == done + part.subrange(0, c as int),
            decreases xs@.len() - c,
        {
            let t = (self.0.duplicate(), self.1.duplicate(), self.2.duplicate(), self.3.duplicate(), self.4.duplicate(), xs[c].duplicate());
            let ghost prev = r@;
            r.push(t);
            proof {
                lemma_map_push(prev, t, |t: (A, B, C, D, E, F)| (t.0.model(), t.1.model(), t.2.model(), t.3.model(), t.4.model(), t.5.model()));
                assert(xs@[c as int].model() == models(xs@)[c as int]);
                assert(part.subrange(0, c + 1) =~= part.subrange(0, c as int).push(part[c as int]));
                assert(done + part.subrange(0, c + 1) =~= (done + part.subrange(0, c as int)).push(part[c as int]));
            }
            c += 1;
        }
        assert(part.subrange(0, c as int) =~= part);
        proof {
            done = done + part;
        }
        assert(r@.map_values(|x: Self| x.model()) =~= tuple6_models(r@));
        r
    }

    fn duplicate(&self) -> (r: (A, B, C, D, E, F)) {
        (self.0.duplicate(), self.1.duplicate(), self.2.duplicate(), self.3.duplicate(), self.4.duplicate(), self.5.duplicate())
    }
}

/// The models of the tuples in `r`.
pub open spec fn tuple7_models<A: Arbitrary, B: Arbitrary, C: Arbitrary, D: Arbitrary, E: Arbitrary, F: Arbitrary, G: Arbitrary>(r: Seq<(A, B, C, D, E, F, G)>) -> Seq<(A::Model, B::Model, C::Model, D::Model, E::Model, F::Model, G::Model)> {
    r.map_values(|t: (A, B, C, D, E, F, G)| (t.0.model(), t.1.model(), t.2.model(), t.3.model(), t.4.model(), t.5.model(), t.6.model()))
}

impl<A: Arbitrary, B: Arbitrary, C: Arbitrary, D: Arbitrary, E: Arbitrary, F: Arbitrary, G: Arbitrary> Arbitrary for (A, B, C, D, E, F, G) {
    type Model = (A::Model, B::Model, C::Model, D::Model, E::Model, F::Model, G::Model);

    open spec fn model(&self) -> (A::Model, B::Model, C::Model, D::Model, E::Model, F::Model, G::Model) {
        (self.0.model(), self.1.model(), self.2.model(), self.3.model(), self.4.model(), self.5.model(), self.6.model())
    }

    open spec fn shrink_spec(m: (A::Model, B::Model, C::Model, D::Model, E::Model, F::Model, G::Model)) -> Seq<(A::Model, B::Model, C::Model, D::Model, E::Model, F::Model, G::Model)> {
        A::shrink_spec(m.0).map_values(|x: A::Model| (x, m.1, m.2, m.3, m.4, m.5, m.6))
            + B::shrink_spec(m.1).map_values(|x: B::Model| (m.0, x, m.2, m.3, m.4, m.5, m.6))
            + C::shrink_spec(m.2).map_values(|x: C::Model| (m.0, m.1, x, m.3, m.4, m.5, m.6))
            + D::shrink_spec(m.3).map_values(|x: D::Model| (m.0, m.1, m.2, x, m.4, m.5, m.6))
            + E::shrink_spec(m.4).map_values(|x: E::Model| (m.0, m.1, m.2, m.3, x, m.5, m.6))
            + F::shrink_spec(m.5).map_values(|x: F::Model| (m.0, m.1, m.2, m.3, m.4, x, m.6))
            + G::shrink_spec(m.6).map_values(|x: G::Model| (m.0, m.1, m.2, m.3, m.4, m.5, x))
    }

    open spec fn weight(m: (A::Model, B::Model, C::Model, D::Model, E::Model, F::Model, G::Model)) -> nat {
        A::weight(m.0) + B::weight(m.1) + C::weight(m.2) + D::weight(m.3) + E::weight(m.4) + F::weight(m.5) + G::weight(m.6)
    }

    open spec fn within(m: (A::Model, B::Model, C::Model, D::Model, E::Model, F::Model, G::Model), size: nat) -> bool {
        A::within(m.0, size)
            && B::within(m.1, size)
            && C::within(m.2, size)
            && D::within(m.3, size)
            && E::within(m.4, size)
            && F::within(m.5, size)
            && G::within(m.6, size)
    }

    proof fn lemma_shrink_lighter(m: (A::Model, B::Model, C::Model, D::Model, E::Model, F::Model, G::Model)) {
        A::lemma_shrink_lighter(m.0);
        B::lemma_shrink_lighter(m.1);
        C::lemma_shrink_lighter(m.2);
        D::lemma_shrink_lighter(m.3);
        E::lemma_shrink_lighter(m.4);
        F::lemma_shrink_lighter(m.5);
        G::lemma_shrink_lighter(m.6);
        let p0 = A::shrink_spec(m.0).map_values(|x: A::Model| (x, m.1, m.2, m.3, m.4, m.5, m.6));
        let p1 = B::shrink_spec(m.1).map_values(|x: B::Model| (m.0, x, m.2, m.3, m.4, m.5, m.6));
        let p2 = C::shrink_spec(m.2).map_values(|x: C::Model| (m.0, m.1, x, m.3, m.4, m.5, m.6));
        let p3 = D::shrink_spec(m.3).map_values(|x: D::Model| (m.0, m.1, m.2, x, m.4, m.5, m.6));
        let p4 = E::shrink_spec(m.4).map_values(|x: E::Model| (m.0, m.1, m.2, m.3, x, m.5, m.6));
        let p5 = F::shrink_spec(m.5).map_values(|x: F::Model| (m.0, m.1, m.2, m.3, m.4, x, m.6));
        let p6 = G::shrink_spec(m.6).map_values(|x: G::Model| (m.0, m.1, m.2, m.3, m.4, m.5, x));
        assert forall|i: int| 0 <= i < Self::shrink_spec(m).len() implies #[trigger] Self::weight(
            Self::shrink_spec(m)[i],
        ) < Self::weight(m) by {
            if i < p0.len() {
                assert(Self::shrink_spec(m)[i] == p0[i]);
                assert(A::weight(A::shrink_spec(m.0)[i]) < A::weight(m.0));
            } else if i < p0.len() + p1.len() {
                assert(Self::shrink_spec(m)[i] == p1[i - (p0.len())]);
                assert(B::weight(B::shrink_spec(m.1)[i - (p0.len())]) < B::weight(m.1));
            } else if i < p0.len() + p1.len() + p2.len() {
                assert(Self::shrink_spec(m)[i] == p2[i - (p0.len() + p1.len())]);
                assert(C::weight(C::shrink_spec(m.2)[i - (p0.len() + p1.len())]) < C::weight(m.2));
            } else if i < p0.len() + p1.len() + p2.len() + p3.len() {
                assert(Self::shrink_spec(m)[i] == p3[i - (p0.len() + p1.len() + p2.len())]);
                assert(D::weight(D::shrink_spec(m.3)[i - (p0.len() + p1.len() + p2.len())]) < D::weight(m.3));
            } else if i < p0.len() + p1.len() + p2.len() + p3.len() + p4.len() {
                assert(Self::shrink_spec(m)[i] == p4[i - (p0.len() + p1.len() + p2.len() + p3.len())]);
                assert(E::weight(E::shrink_spec(m.4)[i - (p0.len() + p1.len() + p2.len() + p3.len())]) < E::weight(m.4));
            } else if i < p0.len() + p1.len() + p2.len() + p3.len() + p4.len() + p5.len() {
                assert(Self::shrink_spec(m)[i] == p5[i - (p0.len() + p1.len() + p2.len() + p3.len() + p4.len())]);
                assert(F::weight(F::shrink_spec(m.5)[i - (p0.len() + p1.len() + p2.len() + p3.len() + p4.len())]) < F::weight(m.5));
            } else if i < p0.len() + p1.len() + p2.len() + p3.len() + p4.len() + p5.len() + p6.len() {
                assert(Self::shrink_spec(m)[i] == p6[i - (p0.len() + p1.len() + p2.len() + p3.len() + p4.len() + p5.len())]);
                assert(G::weight(G::shrink_spec(m.6)[i - (p0.len() + p1.len() + p2.len() + p3.len() + p4.len() + p5.len())]) < G::weight(m.6));
            }
        }
    }

    fn arbitrary(g: &mut Gen) -> (r: (A, B, C, D, E, F, G)) {
        let x0 = A::arbitrary(g);
        let x1 = B::arbitrary(g);
        let x2 = C::arbitrary(g);
        let x3 = D::arbitrary(g);
        let x4 = E::arbitrary(g);
        let x5 = F::arbitrary(g);
        let x6 = G::arbitrary(g);
        (x0, x1, x2, x3, x4, x5, x6)
    }

    fn shrink(&self) -> (r: Vec<(A, B, C, D, E, F, G)>) {
        let ghost m = (self.0.model(), self.1.model(), self.2.model(), self.3.model(), self.4.model(), self.5.model(), self.6.model());
        let mut r: Vec<(A, B, C, D, E, F, G)> = Vec::new();
        let ghost done = Seq::<(A::Model, B::Model, C::Model, D::Model, E::Model, F::Model, G::Model)>::empty();
        assert(tuple7_models(r@) =~= done);
        let ghost part = A::shrink_spec(m.0).map_values(|x: A::Model| (x, m.1, m.2, m.3, m.4, m.5, m.6));
        let xs = self.0.shrink();
        assert(part.subrange(0, 0) =~= Seq::<(A::Model, B::Model, C::Model, D::Model, E::Model, F::Model, G::Model)>::empty());
        assert(done + part.subrange(0, 0) =~= done);
        let mut c: usize = 0;
        while c < xs.len()
            invariant
                m == (self.0.model(), self.1.model(), self.2.model(), self.3.model(), self.4.model(), self.5.model(), self.6.model()),
                part == A::shrink_spec(m.0).map_values(|x: A::Model| (x, m.1, m.2, m.3, m.4, m.5, m.6)),
                models(xs@) == A::shrink_spec(m.0),
                c <= xs@.len(),
                tuple7_models(r@) == done + part.subrange(0, c as int),
            decreases xs@.len() - c,
        {
            let t = (xs[c].duplicate(), self.1.duplicate(), self.2.duplicate(), self.3.duplicate(), self.4.duplicate(), self.5.duplicate(), self.6.duplicate());
            let ghost prev = r@;
            r.push(t);
            proof {
                lemma_map_push(prev, t, |t: (A, B, C, D, E, F, G)| (t.0.model(), t.1.model(), t.2.model(), t.3.model(), t.4.model(), t.5.model(), t.6.model()));
                assert(xs@[c as int].model() == models(xs@)[c as int]);
                assert(part.subrange(0, c + 1) =~= part.subrange(0, c as int).push(part[c as int]));
                assert(done + part.subrange(0, c + 1) =~= (done + part.subrange(0, c as int)).push(part[c as int]));
            }
            c += 1;
        }
        assert(part.subrange(0, c as int) =~= part);
        proof {
            done = done + part;
        }
        let ghost part = B::shrink_spec(m.1).map_values(|x: B::Model| (m.0, x, m.2, m.3, m.4, m.5, m.6));
        let xs = self.1.shrink();
        assert(part.subrange(0, 0) =~= Seq::<(A::Model, B::Model, C::Model, D::Model, E::Model, F::Model, G::Model)>::empty());
        assert(done + part.subrange(0, 0) =~= done);
        let mut c: usize = 0;
        while c < xs.len()
            invariant
                m == (self.0.model(), self.1.model(), self.2.model(), self.3.model(), self.4.model(), self.5.model(), self.6.model()),
                part == B::shrink_spec(m.1).map_values(|x: B::Model| (m.0, x, m.2, m.3, m.4, m.5, m.6)),
                models(xs@) == B::shrink_spec(m.1),
                c <= xs@.len(),
                tuple7_models(r@) == done + part.subrange(0, c as int),
            decreases xs@.len() - c,
        {
            let t = (self.0.duplicate(), xs[c].duplicate(), self.2.duplicate(), self.3.duplicate(), self.4.duplicate(), self.5.duplicate(), self.6.duplicate());
            let ghost prev = r@;
            r.push(t);
            proof {
                lemma_map_push(prev, t, |t: (A, B, C, D, E, F, G)| (t.0.model(), t.1.model(), t.2.model(), t.3.model(), t.4.model(), t.5.model(), t.6.model()));
                assert(xs@[c as int].model() == models(xs@)[c as int]);
                assert(part.subrange(0, c + 1) =~= part.subrange(0, c as int).push(part[c as int]));
                assert(done + part.subrange(0, c + 1) =~= (done + part.subrange(0, c as int)).push(part[c as int]));
            }
            c += 1;
        }
        assert(part.subrange(0, c as int) =~= part);
        proof {
            done = done + part;
        }
        let ghost part = C::shrink_spec(m.2).map_values(|x: C::Model| (m.0, m.1, x, m.3, m.4, m.5, m.6));
        let xs = self.2.shrink();
        assert(part.subrange(0, 0) =~= Seq::<(A::Model, B::Model, C::Model, D::Model, E::Model, F::Model, G::Model)>::empty());
        assert(done + part.subrange(0, 0) =~= done);
        let mut c: usize = 0;
        while c < xs.len()
            invariant
                m == (self.0.model(), self.1.model(), self.2.model(), self.3.model(), self.4.model(), self.5.model(), self.6.model()),
                part == C::shrink_spec(m.2).map_values(|x: C::Model| (m.0, m.1, x, m.3, m.4, m.5, m.6)),
                models(xs@) == C::shrink_spec(m.2),
                c <= xs@.len(),
                tuple7_models(r@) == done + part.subrange(0, c as int),
            decreases xs@.len() - c,
        {
            let t = (self.0.duplicate(), self.1.duplicate(), xs[c].duplicate(), self.3.duplicate(), self.4.duplicate(), self.5.duplicate(), self.6.duplicate());
            let ghost prev = r@;
            r.push(t);
            proof {
                lemma_map_push(prev, t, |t: (A, B, C, D, E, F, G)| (t.0.model(), t.1.model(), t.2.model(), t.3.model(), t.4.model(), t.5.model(), t.6.model()));
                assert(xs@[c as int].model() == models(xs@)[c as int]);
                assert(part.subrange(0, c + 1) =~= part.subrange(0, c as int).push(part[c as int]));
                assert(done + part.subrange(0, c + 1) =~= (done + part.subrange(0, c as int)).push(part[c as int]));
            }
            c += 1;
        }
        assert(part.subrange(0, c as int) =~= part);
        proof {
            done = done + part;
        }
        let ghost part = D::shrink_spec(m.3).map_values(|x: D::Model| (m.0, m.1, m.2, x, m.4, m.5, m.6));
        let xs = self.3.shrink();
        assert(part.subrange(0, 0) =~= Seq::<(A::Model, B::Model, C::Model, D::Model, E::Model, F::Model, G::Model)>::empty());
        assert(done + part.subrange(0, 0) =~= done);
        let mut c: usize = 0;
        while c < xs.len()
            invariant
                m == (self.0.model(), self.1.model(), self.2.model(), self.3.model(), self.4.model(), self.5.model(), self.6.model()),
                part == D::shrink_spec(m.3).map_values(|x: D::Model| (m.0, m.1, m.2, x, m.4, m.5, m.6)),
                models(xs@) == D::shrink_spec(m.3),
                c <= xs@.len(),
                tuple7_models(r@) == done + part.subrange(0, c as int),
            decreases xs@.len() - c,
        {
            let t = (self.0.duplicate(), self.1.duplicate(), self.2.duplicate(), xs[c].duplicate(), self.4.duplicate(), self.5.duplicate(), self.6.duplicate());
            let ghost prev = r@;
            r.push(t);
            proof {
                lemma_map_push(prev, t, |t: (A, B, C, D, E, F, G)| (t.0.model(), t.1.model(), t.2.model(), t.3.model(), t.4.model(), t.5.model(), t.6.model()));
                assert(xs@[c as int].model() == models(xs@)[c as int]);
                assert(part.subrange(0, c + 1) =~= part.subrange(0, c as int).push(part[c as int]));
                assert(done + part.subrange(0, c + 1) =~= (done + part.subrange(0, c as int)).push(part[c as int]));
            }
            c += 1;
        }
        assert(part.subrange(0, c as int) =~= part);
        proof {
            done = done + part;
        }
        let ghost part = E::shrink_spec(m.4).map_values(|x: E::Model| (m.0, m.1, m.2, m.3, x, m.5, m.6));
        let xs = self.4.shrink();
        assert(part.subrange(0, 0) =~= Seq::<(A::Model, B::Model, C::Model, D::Model, E::Model, F::Model, G::Model)>::empty());
        assert(done + part.subrange(0, 0) =~= done);
        let mut c: usize = 0;
        while c < xs.len()
            invariant
                m == (self.0.model(), self.1.model(), self.2.model(), self.3.model(), self.4.model(), self.5.model(), self.6.model()),
                part == E::shrink_spec(m.4).map_values(|x: E::Model| (m.0, m.1, m.2, m.3, x, m.5, m.6)),
                models(xs@) == E::shrink_spec(m.4),
                c <= xs@.len(),
                tuple7_models(r@) == done + part.subrange(0, c as int),
            decreases xs@.len() - c,
        {
            let t = (self.0.duplicate(), self.1.duplicate(), self.2.duplicate(), self.3.duplicate(), xs[c].duplicate(), self.5.duplicate(), self.6.duplicate());
            let ghost prev = r@;
            r.push(t);
            proof {
                lemma_map_push(prev, t, |t: (A, B, C, D, E, F, G)| (t.0.model(), t.1.model(), t.2.model(), t.3.model(), t.4.model(), t.5.model(), t.6.model()));
                assert(xs@[c as int].model() == models(xs@)[c as int]);
                assert(part.subrange(0, c + 1) =~= part.subrange(0, c as int).push(part[c as int]));
                assert(done + part.subrange(0, c + 1) =~= (done + part.subrange(0, c as int)).push(part[c as int]));
            }
            c += 1;
        }
        assert(part.subrange(0, c as int) =~= part);
        proof {
            done = done + part;
        }
        let ghost part = F::shrink_spec(m.5).map_values(|x: F::Model| (m.0, m.1, m.2, m.3, m.4, x, m.6));
        let xs = self.5.shrink();
        assert(part.subrange(0, 0) =~= Seq::<(A::Model, B::Model, C::Model, D::Model, E::Model, F::Model, G::Model)>::empty());
        assert(done + part.subrange(0, 0) =~= done);
        let mut c: usize = 0;
        while c < xs.len()
            invariant
                m == (self.0.model(), self.1.model(), self.2.model(), self.3.model(), self.4.model(), self.5.model(), self.6.model()),
                part == F::shrink_spec(m.5).map_values(|x: F::Model| (m.0, m.1, m.2, m.3, m.4, x, m.6)),
                models(xs@) == F::shrink_spec(m.5),
                c <= xs@.len(),
                tuple7_models(r@) == done + part.subrange(0, c as int),
            decreases xs@.len() - c,
        {
            let t = (self.0.duplicate(), self.1.duplicate(), self.2.duplicate(), self.3.duplicate(), self.4.duplicate(), xs[c].duplicate(), self.6.duplicate());
            let ghost prev = r@;
            r.push(t);
            proof {
                lemma_map_push(prev, t, |t: (A, B, C, D, E, F, G)| (t.0.model(), t.1.model(), t.2.model(), t.3.model(), t.4.model(), t.5.model(), t.6.model()));
                assert(xs@[c as int].model() == models(xs@)[c as int]);
                assert(part.subrange(0, c + 1) =~= part.subrange(0, c as int).push(part[c as int]));
                assert(done + part.subrange(0, c + 1) =~= (done + part.subrange(0, c as int)).push(part[c as int]));
            }
            c += 1;
        }
        assert(part.subrange(0, c as int) =~= part);
        proof {
            done = done + part;
        }
        let ghost part = G::shrink_spec(m.6).map_values(|x: G::Model| (m.0, m.1, m.2, m.3, m.4, m.5, x));
        let xs = self.6.shrink();
        assert(part.subrange(0, 0) =~= Seq::<(A::Model, B::Model, C::Model, D::Model, E::Model, F::Model, G::Model)>::empty());
        assert(done + part.subrange(0, 0) =~= done);
        let mut c: usize = 0;
        while c < xs.len()
            invariant
                m == (self.0.model(), self.1.model(), self.2.model(), self.3.model(), self.4.model(), self.5.model(), self.6.model()),
                part == G::shrink_spec(m.6).map_values(|x: G::Model| (m.0, m.1, m.2, m.3, m.4, m.5, x)),
                models(xs@) == G::shrink_spec(m.6),
                c <= xs@.len(),
                tuple7_models(r@) == done + part.subrange(0, c as int),
            decreases xs@.len() - c,
        {
            let t = (self.0.duplicate(), self.1.duplicate(), self.2.duplicate(), self.3.duplicate(), self.4.duplicate(), self.5.duplicate(), xs[c].duplicate());
            let ghost prev = r@;
            r.push(t);
            proof {
                lemma_map_push(prev, t, |t: (A, B, C, D, E, F, G)| (t.0.model(), t.1.model(), t.2.model(), t.3.model(), t.4.model(), t.5.model(), t.6.model()));
                assert(xs@[c as int].model() == models(xs@)[c as int]);
                assert(part.subrange(0, c + 1) =~= part.subrange(0, c as int).push(part[c as int]));
                assert(done + part.subrange(0, c + 1) =~= (done + part.subrange(0, c as int)).push(part[c as int]));
            }
            c += 1;
        }
        assert(part.subrange(0, c as int) =~= part);
        proof {
            done = done + part;
        }
        assert(r@.map_values(|x: Self| x.model()) =~= tuple7_models(r@));
        r
    }

    fn duplicate(&self) -> (r: (A, B, C, D, E, F, G)) {
        (self.0.duplicate(), self.1.duplicate(), self.2.duplicate(), self.3.duplicate(), self.4.duplicate(), self.5.duplicate(), self.6.duplicate())
    }
}

/// The models of the tuples in `r`.
pub open spec fn tuple8_models<A: Arbitrary, B: Arbitrary, C: Arbitrary, D: Arbitrary, E: Arbitrary, F: Arbitrary, G: Arbitrary, H: Arbitrary>(r: Seq<(A, B, C, D, E, F, G, H)>) -> Seq<(A::Model, B::Model, C::Model, D::Model, E::Model, F::Model, G::Model, H::Model)> {
    r.map_values(|t: (A, B, C, D, E, F, G, H)| (t.0.model(), t.1.model(), t.2.model(), t.3.model(), t.4.model(), t.5.model(), t.6.model(), t.7.model()))
}

impl<A: Arbitrary, B: Arbitrary, C: Arbitrary, D: Arbitrary, E: Arbitrary, F: Arbitrary, G: Arbitrary, H: Arbitrary> Arbitrary for (A, B, C, D, E, F, G, H) {
    type Model = (A::Model, B::Model, C::Model, D::Model, E::Model, F::Model, G::Model, H::Model);

    open spec fn model(&self) -> (A::Model, B::Model, C::Model, D::Model, E::Model, F::Model, G::Model, H::Model) {
        (self.0.model(), self.1.model(), self.2.model(), self.3.model(), self.4.model(), self.5.model(), self.6.model(), self.7.model())
    }

    open spec fn shrink_spec(m: (A::Model, B::Model, C::Model, D::Model, E::Model, F::Model, G::Model, H::Model)) -> Seq<(A::Model, B::Model, C::Model, D::Model, E::Model, F::Model, G::Model, H::Model)> {
        A::shrink_spec(m.0).map_values(|x: A::Model| (x, m.1, m.2, m.3, m.4, m.5, m.6, m.7))
            + B::shrink_spec(m.1).map_values(|x: B::Model| (m.0, x, m.2, m.3, m.4, m.5, m.6, m.7))
            + C::shrink_spec(m.2).map_values(|x: C::Model| (m.0, m.1, x, m.3, m.4, m.5, m.6, m.7))
            + D::shrink_spec(m.3).map_values(|x: D::Model| (m.0, m.1, m.2, x, m.4, m.5, m.6, m.7))
            + E::shrink_spec(m.4).map_values(|x: E::Model| (m.0, m.1, m.2, m.3, x, m.5, m.6, m.7))
            + F::shrink_spec(m.5).map_values(|x: F::Model| (m.0, m.1, m.2, m.3, m.4, x, m.6, m.7))
            + G::shrink_spec(m.6).map_values(|x: G::Model| (m.0, m.1, m.2, m.3, m.4, m.5, x, m.7))
            + H::shrink_spec(m.7).map_values(|x: H::Model| (m.0, m.1, m.2, m.3, m.4, m.5, m.6, x))
    }

    open spec fn weight(m: (A::Model, B::Model, C::Model, D::Model, E::Model, F::Model, G::Model, H::Model)) -> nat {
        A::weight(m.0) + B::weight(m.1) + C::weight(m.2) + D::weight(m.3) + E::weight(m.4) + F::weight(m.5) + G::weight(m.6) + H::weight(m.7)
    }

    open spec fn within(m: (A::Model, B::Model, C::Model, D::Model, E::Model, F::Model, G::Model, H::Model), size: nat) -> bool {
        A::within(m.0, size)
            && B::within(m.1, size)
            && C::within(m.2, size)
            && D::within(m.3, size)
            && E::within(m.4, size)
            && F::within(m.5, size)
            && G::within(m.6, size)
            && H::within(m.7, size)
    }

    proof fn lemma_shrink_lighter(m: (A::Model, B::Model, C::Model, D::Model, E::Model, F::Model, G::Model, H::Model)) {
        A::lemma_shrink_lighter(m.0);
        B::lemma_shrink_lighter(m.1);
        C::lemma_shrink_lighter(m.2);
        D::lemma_shrink_lighter(m.3);
        E::lemma_shrink_lighter(m.4);
        F::lemma_shrink_lighter(m.5);
        G::lemma_shrink_lighter(m.6);
        H::lemma_shrink_lighter(m.7);
        let p0 = A::shrink_spec(m.0).map_values(|x: A::Model| (x, m.1, m.2, m.3, m.4, m.5, m.6, m.7));
        let p1 = B::shrink_spec(m.1).map_values(|x: B::Model| (m.0, x, m.2, m.3, m.4, m.5, m.6, m.7));
        let p2 = C::shrink_spec(m.2).map_values(|x: C::Model| (m.0, m.1, x, m.3, m.4, m.5, m.6, m.7));
        let p3 = D::shrink_spec(m.3).map_values(|x: D::Model| (m.0, m.1, m.2, x, m.4, m.5, m.6, m.7));
        let p4 = E::shrink_spec(m.4).map_values(|x: E::Model| (m.0, m.1, m.2, m.3, x, m.5, m.6, m.7));
        let p5 = F::shrink_spec(m.5).map_values(|x: F::Model| (m.0, m.1, m.2, m.3, m.4, x, m.6, m.7));
        let p6 = G::shrink_spec(m.6).map_values(|x: G::Model| (m.0, m.1, m.2, m.3, m.4, m.5, x, m.7));
        let p7 = H::shrink_spec(m.7).map_values(|x: H::Model| (m.0, m.1, m.2, m.3, m.4, m.5, m.6, x));
        assert forall|i: int| 0 <= i < Self::shrink_spec(m).len() implies #[trigger] Self::weight(
            Self::shrink_spec(m)[i],
        ) < Self::weight(m) by {
            if i < p0.len() {
                assert(Self::shrink_spec(m)[i] == p0[i]);
                assert(A::weight(A::shrink_spec(m.0)[i]) < A::weight(m.0));
            } else if i < p0.len() + p1.len() {
                assert(Self::shrink_spec(m)[i] == p1[i - (p0.len())]);
                assert(B::weight(B::shrink_spec(m.1)[i - (p0.len())]) < B::weight(m.1));
            } else if i < p0.len() + p1.len() + p2.len() {
                assert(Self::shrink_spec(m)[i] == p2[i - (p0.len() + p1.len())]);
                assert(C::weight(C::shrink_spec(m.2)[i - (p0.len() + p1.len())]) < C::weight(m.2));
            } else if i < p0.len() + p1.len() + p2.len() + p3.len() {
                assert(Self::shrink_spec(m)[i] == p3[i - (p0.len() + p1.len() + p2.len())]);
                assert(D::weight(D::shrink_spec(m.3)[i - (p0.len() + p1.len() + p2.len())]) < D::weight(m.3));
            } else if i < p0.len() + p1.len() + p2.len() + p3.len() + p4.len() {
                assert(Self::shrink_spec(m)[i] == p4[i - (p0.len() + p1.len() + p2.len() + p3.len())]);
                assert(E::weight(E::shrink_spec(m.4)[i - (p0.len() + p1.len() + p2.len() + p3.len())]) < E::weight(m.4));
            } else if i < p0.len() + p1.len() + p2.len() + p3.len() + p4.len() + p5.len() {
                assert(Self::shrink_spec(m)[i] == p5[i - (p0.len() + p1.len() + p2.len() + p3.len() + p4.len())]);
                assert(F::weight(F::shrink_spec(m.5)[i - (p0.len() + p1.len() + p2.len() + p3.len() + p4.len())]) < F::weight(m.5));
            } else if i < p0.len() + p1.len() + p2.len() + p3.len() + p4.len() + p5.len() + p6.len() {
                assert(Self::shrink_spec(m)[i] == p6[i - (p0.len() + p1.len() + p2.len() + p3.len() + p4.len() + p5.len())]);
                assert(G::weight(G::shrink_spec(m.6)[i - (p0.len() + p1.len() + p2.len() + p3.len() + p4.len() + p5.len())]) < G::weight(m.6));
            } else if i < p0.len() + p1.len() + p2.len() + p3.len() + p4.len() + p5.len() + p6.len() + p7.len() {
                assert(Self::shrink_spec(m)[i] == p7[i - (p0.len() + p1.len() + p2.len() + p3.len() + p4.len() + p5.len() + p6.len())]);
                assert(H::weight(H::shrink_spec(m.7)[i - (p0.len() + p1.len() + p2.len() + p3.len() + p4.len() + p5.len() + p6.len())]) < H::weight(m.7));
            }
        }
    }

    fn arbitrary(g: &mut Gen) -> (r: (A, B, C, D, E, F, G, H)) {
        let x0 = A::arbitrary(g);
        let x1 = B::arbitrary(g);
        let x2 = C::arbitrary(g);
        let x3 = D::arbitrary(g);
        let x4 = E::arbitrary(g);
        let x5 = F::arbitrary(g);
        let x6 = G::arbitrary(g);
        let x7 = H::arbitrary(g);
        (x0, x1, x2, x3, x4, x5, x6, x7)
    }

    fn shrink(&self) -> (r: Vec<(A, B, C, D, E, F, G, H)>) {
        let ghost m = (self.0.model(), self.1.model(), self.2.model(), self.3.model(), self.4.model(), self.5.model(), self.6.model(), self.7.model());
        let mut r: Vec<(A, B, C, D, E, F, G, H)> = Vec::new();
        let ghost done = Seq::<(A::Model, B::Model, C::Model, D::Model, E::Model, F::Model, G::Model, H::Model)>::empty();
        assert(tuple8_models(r@) =~= done);
        let ghost part = A::shrink_spec(m.0).map_values(|x: A::Model| (x, m.1, m.2, m.3, m.4, m.5, m.6, m.7));
        let xs = self.0.shrink();
        assert(part.subrange(0, 0) =~= Seq::<(A::Model, B::Model, C::Model, D::Model, E::Model, F::Model, G::Model, H::Model)>::empty());
        assert(done + part.subrange(0, 0) =~= done);
        let mut c: usize = 0;
        while c < xs.len()
            invariant
                m == (self.0.model(), self.1.model(), self.2.model(), self.3.model(), self.4.model(), self.5.model(), self.6.model(), self.7.model()),
                part == A::shrink_spec(m.0).map_values(|x: A::Model| (x, m.1, m.2, m.3, m.4, m.5, m.6, m.7)),
                models(xs@) == A::shrink_spec(m.0),
                c <= xs@.len(),
                tuple8_models(r@) == done + part.subrange(0, c as int),
            decreases xs@.len() - c,
        {
            let t = (xs[c].duplicate(), self.1.duplicate(), self.2.duplicate(), self.3.duplicate(), self.4.duplicate(), self.5.duplicate(), self.6.duplicate(), self.7.duplicate());
            let ghost prev = r@;
            r.push(t);
            proof {
                lemma_map_push(prev, t, |t: (A, B, C, D, E, F, G, H)| (t.0.model(), t.1.model(), t.2.model(), t.3.model(), t.4.model(), t.5.model(), t.6.model(), t.7.model()));
                assert(xs@[c as int].model() == models(xs@)[c as int]);
                assert(part.subrange(0, c + 1) =~= part.subrange(0, c as int).push(part[c as int]));
                assert(done + part.subrange(0, c + 1) =~= (done + part.subrange(0, c as int)).push(part[c as int]));
            }
            c += 1;
        }
        assert(part.subrange(0, c as int) =~= part);
        proof {
            done = done + part;
        }
        let ghost part = B::shrink_spec(m.1).map_values(|x: B::Model| (m.0, x, m.2, m.3, m.4, m.5, m.6, m.7));
        let xs = self.1.shrink();
        assert(part.subrange(0, 0) =~= Seq::<(A::Model, B::Model, C::Model, D::Model, E::Model, F::Model, G::Model, H::Model)>::empty());
        assert(done + part.subrange(0, 0) =~= done);
        let mut c: usize = 0;
        while c < xs.len()
            invariant
                m == (self.0.model(), self.1.model(), self.2.model(), self.3.model(), self.4.model(), self.5.model(), self.6.model(), self.7.model()),
                part == B::shrink_spec(m.1).map_values(|x: B::Model| (m.0, x, m.2, m.3, m.4, m.5, m.6, m.7)),
                models(xs@) == B::shrink_spec(m.1),
                c <= xs@.len(),
                tuple8_models(r@) == done + part.subrange(0, c as int),
            decreases xs@.len() - c,
        {
            let t = (self.0.duplicate(), xs[c].duplicate(), self.2.duplicate(), self.3.duplicate(), self.4.duplicate(), self.5.duplicate(), self.6.duplicate(), self.7.duplicate());
            let ghost prev = r@;
            r.push(t);
            proof {
                lemma_map_push(prev, t, |t: (A, B, C, D, E, F, G, H)| (t.0.model(), t.1.model(), t.2.model(), t.3.model(), t.4.model(), t.5.model(), t.6.model(), t.7.model()));
                assert(xs@[c as int].model() == models(xs@)[c as int]);
                assert(part.subrange(0, c + 1) =~= part.subrange(0, c as int).push(part[c as int]));
                assert(done + part.subrange(0, c + 1) =~= (done + part.subrange(0, c as int)).push(part[c as int]));
            }
            c += 1;
        }
        assert(part.subrange(0, c as int) =~= part);
        proof {
            done = done + part;
        }
        let ghost part = C::shrink_spec(m.2).map_values(|x: C::Model| (m.0, m.1, x, m.3, m.4, m.5, m.6, m.7));
        let xs = self.2.shrink();
        assert(part.subrange(0, 0) =~= Seq::<(A::Model, B::Model, C::Model, D::Model, E::Model, F::Model, G::Model, H::Model)>::empty());
        assert(done + part.subrange(0, 0) =~= done);
        let mut c: usize = 0;
        while c < xs.len()
            invariant
                m == (self.0.model(), self.1.model(), self.2.model(), self.3.model(), self.4.model(), self.5.model(), self.6.model(), self.7.model()),
                part == C::shrink_spec(m.2).map_values(|x: C::Model| (m.0, m.1, x, m.3, m.4, m.5, m.6, m.7)),
                models(xs@) == C::shrink_spec(m.2),
                c <= xs@.len(),
                tuple8_models(r@) == done + part.subrange(0, c as int),
            decreases xs@.len() - c,
        {
            let t = (self.0.duplicate(), self.1.duplicate(), xs[c].duplicate(), self.3.duplicate(), self.4.duplicate(), self.5.duplicate(), self.6.duplicate(), self.7.duplicate());
            let ghost prev = r@;
            r.push(t);
            proof {
                lemma_map_push(prev, t, |t: (A, B, C, D, E, F, G, H)| (t.0.model(), t.1.model(), t.2.model(), t.3.model(), t.4.model(), t.5.model(), t.6.model(), t.7.model()));
                assert(xs@[c as int].model() == models(xs@)[c as int]);
                assert(part.subrange(0, c + 1) =~= part.subrange(0, c as int).push(part[c as int]));
                assert(done + part.subrange(0, c + 1) =~= (done + part.subrange(0, c as int)).push(part[c as int]));
            }
            c += 1;
        }
        assert(part.subrange(0, c as int) =~= part);
        proof {
            done = done + part;
        }
        let ghost part = D::shrink_spec(m.3).map_values(|x: D::Model| (m.0, m.1, m.2, x, m.4, m.5, m.6, m.7));
        let xs = self.3.shrink();
        assert(part.subrange(0, 0) =~= Seq::<(A::Model, B::Model, C::Model, D::Model, E::Model, F::Model, G::Model, H::Model)>::empty());
        assert(done + part.subrange(0, 0) =~= done);
        let mut c: usize = 0;
        while c < xs.len()
            invariant
                m == (self.0.model(), self.1.model(), self.2.model(), self.3.model(), self.4.model(), self.5.model(), self.6.model(), self.7.model()),
                part == D::shrink_spec(m.3).map_values(|x: D::Model| (m.0, m.1, m.2, x, m.4, m.5, m.6, m.7)),
                models(xs@) == D::shrink_spec(m.3),
                c <= xs@.len(),
                tuple8_models(r@) == done + part.subrange(0, c as int),
            decreases xs@.len() - c,
        {
            let t = (self.0.duplicate(), self.1.duplicate(), self.2.duplicate(), xs[c].duplicate(), self.4.duplicate(), self.5.duplicate(), self.6.duplicate(), self.7.duplicate());
            let ghost prev = r@;
            r.push(t);
            proof {
                lemma_map_push(prev, t, |t: (A, B, C, D, E, F, G, H)| (t.0.model(), t.1.model(), t.2.model(), t.3.model(), t.4.model(), t.5.model(), t.6.model(), t.7.model()));
                assert(xs@[c as int].model() == models(xs@)[c as int]);
                assert(part.subrange(0, c + 1) =~= part.subrange(0, c as int).push(part[c as int]));
                assert(done + part.subrange(0, c + 1) =~= (done + part.subrange(0, c as int)).push(part[c as int]));
            }
            c += 1;
        }
        assert(part.subrange(0, c as int) =~= part);
        proof {
            done = done + part;
        }
        let ghost part = E::shrink_spec(m.4).map_values(|x: E::Model| (m.0, m.1, m.2, m.3, x, m.5, m.6, m.7));
        let xs = self.4.shrink();
        assert(part.subrange(0, 0) =~= Seq::<(A::Model, B::Model, C::Model, D::Model, E::Model, F::Model, G::Model, H::Model)>::empty());
        assert(done + part.subrange(0, 0) =~= done);
        let mut c: usize = 0;
        while c < xs.len()
            invariant
                m == (self.0.model(), self.1.model(), self.2.model(), self.3.model(), self.4.model(), self.5.model(), self.6.model(), self.7.model()),
                part == E::shrink_spec(m.4).map_values(|x: E::Model| (m.0, m.1, m.2, m.3, x, m.5, m.6, m.7)),
                models(xs@) == E::shrink_spec(m.4),
                c <= xs@.len(),
                tuple8_models(r@) == done + part.subrange(0, c as int),
            decreases xs@.len() - c,
        {
            let t = (self.0.duplicate(), self.1.duplicate(), self.2.duplicate(), self.3.duplicate(), xs[c].duplicate(), self.5.duplicate(), self.6.duplicate(), self.7.duplicate());
            let ghost prev = r@;
            r.push(t);
            proof {
                lemma_map_push(prev, t, |t: (A, B, C, D, E, F, G, H)| (t.0.model(), t.1.model(), t.2.model(), t.3.model(), t.4.model(), t.5.model(), t.6.model(), t.7.model()));
                assert(xs@[c as int].model() == models(xs@)[c as int]);
                assert(part.subrange(0, c + 1) =~= part.subrange(0, c as int).push(part[c as int]));
                assert(done + part.subrange(0, c + 1) =~= (done + part.subrange(0, c as int)).push(part[c as int]));
            }
            c += 1;
        }
        assert(part.subrange(0, c as int) =~= part);
        proof {
            done = done + part;
        }
        let ghost part = F::shrink_spec(m.5).map_values(|x: F::Model| (m.0, m.1, m.2, m.3, m.4, x, m.6, m.7));
        let xs = self.5.shrink();
        assert(part.subrange(0, 0) =~= Seq::<(A::Model, B::Model, C::Model, D::Model, E::Model, F::Model, G::Model, H::Model)>::empty());
        assert(done + part.subrange(0, 0) =~= done);
        let mut c: usize = 0;
        while c < xs.len()
            invariant
                m == (self.0.model(), self.1.model(), self.2.model(), self.3.model(), self.4.model(), self.5.model(), self.6.model(), self.7.model()),
                part == F::shrink_spec(m.5).map_values(|x: F::Model| (m.0, m.1, m.2, m.3, m.4, x, m.6, m.7)),
                models(xs@) == F::shrink_spec(m.5),
                c <= xs@.len(),
                tuple8_models(r@) == done + part.subrange(0, c as int),
            decreases xs@.len() - c,
        {
            let t = (self.0.duplicate(), self.1.duplicate(), self.2.duplicate(), self.3.duplicate(), self.4.duplicate(), xs[c].duplicate(), self.6.duplicate(), self.7.duplicate());
            let ghost prev = r@;
            r.push(t);
            proof {
                lemma_map_push(prev, t, |t: (A, B, C, D, E, F, G, H)| (t.0.model(), t.1.model(), t.2.model(), t.3.model(), t.4.model(), t.5.model(), t.6.model(), t.7.model()));
                assert(xs@[c as int].model() == models(xs@)[c as int]);
                assert(part.subrange(0, c + 1) =~= part.subrange(0, c as int).push(part[c as int]));
                assert(done + part.subrange(0, c + 1) =~= (done + part.subrange(0, c as int)).push(part[c as int]));
            }
            c += 1;
        }
        assert(part.subrange(0, c as int) =~= part);
        proof {
            done = done + part;
        }
        let ghost part = G::shrink_spec(m.6).map_values(|x: G::Model| (m.0, m.1, m.2, m.3, m.4, m.5, x, m.7));
        let xs = self.6.shrink();
        assert(part.subrange(0, 0) =~= Seq::<(A::Model, B::Model, C::Model, D::Model, E::Model, F::Model, G::Model, H::Model)>::empty());
        assert(done + part.subrange(0, 0) =~= done);
        let mut c: usize = 0;
        while c < xs.len()
            invariant
                m == (self.0.model(), self.1.model(), self.2.model(), self.3.model(), self.4.model(), self.5.model(), self.6.model(), self.7.model()),
                part == G::shrink_spec(m.6).map_values(|x: G::Model| (m.0, m.1, m.2, m.3, m.4, m.5, x, m.7)),
                models(xs@) == G::shrink_spec(m.6),
                c <= xs@.len(),
                tuple8_models(r@) == done + part.subrange(0, c as int),
            decreases xs@.len() - c,
        {
            let t = (self.0.duplicate(), self.1.duplicate(), self.2.duplicate(), self.3.duplicate(), self.4.duplicate(), self.5.duplicate(), xs[c].duplicate(), self.7.duplicate());
            let ghost prev = r@;
            r.push(t);
            proof {
                lemma_map_push(prev, t, |t: (A, B, C, D, E, F, G, H)| (t.0.model(), t.1.model(), t.2.model(), t.3.model(), t.4.model(), t.5.model(), t.6.model(), t.7.model()));
                assert(xs@[c as int].model() == models(xs@)[c as int]);
                assert(part.subrange(0, c + 1) =~= part.subrange(0, c as int).push(part[c as int]));
                assert(done + part.subrange(0, c + 1) =~= (done + part.subrange(0, c as int)).push(part[c as int]));
            }
            c += 1;
        }
        assert(part.subrange(0, c as int) =~= part);
        proof {
            done = done + part;
        }
        let ghost part = H::shrink_spec(m.7).map_values(|x: H::Model| (m.0, m.1, m.2, m.3, m.4, m.5, m.6, x));
        let xs = self.7.shrink();
        assert(part.subrange(0, 0) =~= Seq::<(A::Model, B::Model, C::Model, D::Model, E::Model, F::Model, G::Model, H::Model)>::empty());
        assert(done + part.subrange(0, 0) =~= done);
        let mut c: usize = 0;
        while c < xs.len()
            invariant
                m == (self.0.model(), self.1.model(), self.2.model(), self.3.model(), self.4.model(), self.5.model(), self.6.model(), self.7.model()),
                part == H::shrink_spec(m.7).map_values(|x: H::Model| (m.0, m.1, m.2, m.3, m.4, m.5, m.6, x)),
                models(xs@) == H::shrink_spec(m.7),
                c <= xs@.len(),
                tuple8_models(r@) == done + part.subrange(0, c as int),
            decreases xs@.len() - c,
        {
            let t = (self.0.duplicate(), self.1.duplicate(), self.2.duplicate(), self.3.duplicate(), self.4.duplicate(), self.5.duplicate(), self.6.duplicate(), xs[c].duplicate());
            let ghost prev = r@;
            r.push(t);
            proof {
                lemma_map_push(prev, t, |t: (A, B, C, D, E, F, G, H)| (t.0.model(), t.1.model(), t.2.model(), t.3.model(), t.4.model(), t.5.model(), t.6.model(), t.7.model()));
                assert(xs@[c as int].model() == models(xs@)[c as int]);
                assert(part.subrange(0, c + 1) =~= part.subrange(0, c as int).push(part[c as int]));
                assert(done + part.subrange(0, c + 1) =~= (done + part.subrange(0, c as int)).push(part[c as int]));
            }
            c += 1;
        }
        assert(part.subrange(0, c as int) =~= part);
        proof {
            done = done + part;
        }
        assert(r@.map_values(|x: Self| x.model()) =~= tuple8_models(r@));
        r
    }

    fn duplicate(&self) -> (r: (A, B, C, D, E, F, G, H)) {
        (self.0.duplicate(), self.1.duplicate(), self.2.duplicate(), self.3.duplicate(), self.4.duplicate(), self.5.duplicate(), self.6.duplicate(), self.7.duplicate())
    }
}
} // verus!
