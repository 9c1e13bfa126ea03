//! Values that can be generated at random and shrunk toward smaller ones.
use vstd::prelude::*;

use crate::gen::Gen;

verus! {

/// A type whose values can be drawn from a [`Gen`] and shrunk.
///
/// Each value stands for a mathematical `Model`. `shrink` yields, in order,
/// the candidates that `shrink_spec` lists for that model, and every one of
/// them has a smaller `weight` than the value it came from, so that shrinking
/// again and again always comes to an end.
pub trait Arbitrary: Sized {
    /// What a value stands for.
    type Model;

    /// The model of this value.
    spec fn model(&self) -> Self::Model;

    /// The candidates that `shrink` yields, in order.
    spec fn shrink_spec(m: Self::Model) -> Seq<Self::Model>;

    /// A measure that every shrink candidate lowers.
    spec fn weight(m: Self::Model) -> nat;

    /// Whether a value fits within a generator of the given size.
    spec fn within(m: Self::Model, size: nat) -> bool;

    /// Every shrink candidate is lighter than the value it came from.
    proof fn lemma_shrink_lighter(m: Self::Model)
        ensures
            forall|i: int|
                0 <= i < Self::shrink_spec(m).len() ==> #[trigger] Self::weight(
                    Self::shrink_spec(m)[i],
                ) < Self::weight(m),
    ;

    /// A value drawn at random, within the generator's size.
    fn arbitrary(g: &mut Gen) -> (r: Self)
        ensures
            final(g).size_spec() == old(g).size_spec(),
            Self::within(r.model(), old(g).size_spec() as nat),
    ;

    /// The candidates smaller than this value, in the order they are tried.
    fn shrink(&self) -> (r: Vec<Self>)
        ensures
            r@.map_values(|x: Self| x.model()) == Self::shrink_spec(self.model()),
    ;

    /// A value with the same model as this one.
    fn duplicate(&self) -> (r: Self)
        ensures
            r.model() == self.model(),
    ;
}

/// An empty list of candidates.
pub fn empty_shrinker<A>() -> (r: Vec<A>)
    ensures
        r@.len() == 0,
{
    Vec::new()
}

/// A list holding the single candidate `value`.
pub fn single_shrinker<A>(value: A) -> (r: Vec<A>)
    ensures
        r@ == seq![value],
{
    let mut r = Vec::new();
    r.push(value);
    r
}

/// Appending a value and then a rest is the same as appending both at once.
pub proof fn lemma_push_then_rest<T>(a: Seq<T>, e: T, b: Seq<T>)
    ensures
        a.push(e) + b == a + (seq![e] + b),
{
    assert(a.push(e) + b =~= a + (seq![e] + b));
}

/// Mapping a sequence with one more element appends that element's image.
pub proof fn lemma_map_push<T, M>(s: Seq<T>, v: T, f: spec_fn(T) -> M)
    ensures
        s.push(v).map_values(f) == s.map_values(f).push(f(v)),
{
    assert(s.push(v).map_values(f) =~= s.map_values(f).push(f(v)));
}

impl Arbitrary for () {
    type Model = ();

    open spec fn model(&self) -> () {
        ()
    }

    open spec fn shrink_spec(m: ()) -> Seq<()> {
        seq![]
    }

    open spec fn weight(m: ()) -> nat {
        0
    }

    open spec fn within(m: (), size: nat) -> bool {
        true
    }

    proof fn lemma_shrink_lighter(m: ()) {
    }

    fn arbitrary(g: &mut Gen) -> (r: ()) {
        ()
    }

    fn shrink(&self) -> (r: Vec<()>) {
        let r = empty_shrinker();
        assert(r@.map_values(|x: ()| x.model()) =~= seq![]);
        r
    }

    fn duplicate(&self) -> (r: ()) {
        ()
    }
}

impl Arbitrary for bool {
    type Model = bool;

    open spec fn model(&self) -> bool {
        *self
    }

    open spec fn shrink_spec(m: bool) -> Seq<bool> {
        if m {
            seq![false]
        } else {
            seq![]
        }
    }

    open spec fn weight(m: bool) -> nat {
        if m {
            1
        } else {
            0
        }
    }

    open spec fn within(m: bool, size: nat) -> bool {
        true
    }

    proof fn lemma_shrink_lighter(m: bool) {
    }

    fn arbitrary(g: &mut Gen) -> (r: bool) {
        g.gen_bool()
    }

    fn shrink(&self) -> (r: Vec<bool>) {
        let r = if *self {
            single_shrinker(false)
        } else {
            empty_shrinker()
        };
        assert(r@.map_values(|x: bool| x.model()) =~= Self::shrink_spec(self.model()));
        r
    }

    fn duplicate(&self) -> (r: bool) {
        *self
    }
}

impl<A: Arbitrary> Arbitrary for Option<A> {
    type Model = Option<A::Model>;

    open spec fn model(&self) -> Option<A::Model> {
        match self {
            Some(x) => Some(x.model()),
            None => None,
        }
    }

    open spec fn shrink_spec(m: Option<A::Model>) -> Seq<Option<A::Model>> {
        match m {
            None => seq![],
            Some(x) => seq![None] + A::shrink_spec(x).map_values(|e: A::Model| Some(e)),
        }
    }

    open spec fn weight(m: Option<A::Model>) -> nat {
        match m {
            None => 0,
            Some(x) => A::weight(x) + 1,
        }
    }

    open spec fn within(m: Option<A::Model>, size: nat) -> bool {
        match m {
            None => true,
            Some(x) => A::within(x, size),
        }
    }

    proof fn lemma_shrink_lighter(m: Option<A::Model>) {
        if let Some(x) = m {
            A::lemma_shrink_lighter(x);
            assert forall|i: int| 0 <= i < Self::shrink_spec(m).len() implies #[trigger] Self::weight(
                Self::shrink_spec(m)[i],
            ) < Self::weight(m) by {
                if i > 0 {
                    assert(Self::shrink_spec(m)[i] == Some(A::shrink_spec(x)[i - 1]));
                }
            }
        }
    }

    fn arbitrary(g: &mut Gen) -> (r: Option<A>) {
        if g.gen_bool() {
            None
        } else {
            Some(A::arbitrary(g))
        }
    }

    fn shrink(&self) -> (r: Vec<Option<A>>) {
        match self {
            None => {
                let r = empty_shrinker();
                assert(r@.map_values(|o: Option<A>| o.model()) =~= seq![]);
                r
            },
            Some(x) => {
                let xs = x.shrink();
                let ghost cands = A::shrink_spec(x.model());
                let mut r: Vec<Option<A>> = Vec::new();
                r.push(None);
                assert(r@.map_values(|o: Option<A>| o.model()) =~= seq![None] + cands.subrange(
                    0,
                    0,
                ).map_values(|e: A::Model| Some(e)));
                let mut k: usize = 0;
                while k < xs.len()
                    invariant
                        k <= xs@.len(),
                        xs@.map_values(|e: A| e.model()) == cands,
                        r@.map_values(|o: Option<A>| o.model()) == seq![None] + cands.subrange(
                            0,
                            k as int,
                        ).map_values(|e: A::Model| Some(e)),
                    decreases xs@.len() - k,
                {
                    let ghost prev = r@;
                    let e = xs[k].duplicate();
                    r.push(Some(e));
                    proof {
                        lemma_map_push(prev, Some(e), |o: Option<A>| o.model());
                        assert(cands[k as int] == xs@.map_values(|e: A| e.model())[k as int]);
                        assert(cands.subrange(0, k + 1).map_values(|e: A::Model| Some(e))
                            =~= cands.subrange(0, k as int).map_values(|e: A::Model| Some(e)).push(
                            Some(cands[k as int]),
                        ));
                    }
                    k += 1;
                }
                assert(cands.subrange(0, k as int) =~= cands);
                r
            },
        }
    }

    fn duplicate(&self) -> (r: Option<A>) {
        match self {
            None => None,
            Some(x) => Some(x.duplicate()),
        }
    }
}

impl<A: Arbitrary, B: Arbitrary> Arbitrary for Result<A, B> {
    type Model = Result<A::Model, B::Model>;

    open spec fn model(&self) -> Result<A::Model, B::Model> {
        match self {
            Ok(x) => Ok(x.model()),
            Err(y) => Err(y.model()),
        }
    }

    open spec fn shrink_spec(m: Result<A::Model, B::Model>) -> Seq<Result<A::Model, B::Model>> {
        match m {
            Ok(x) => A::shrink_spec(x).map_values(|e: A::Model| Ok::<A::Model, B::Model>(e)),
            Err(y) => B::shrink_spec(y).map_values(|e: B::Model| Err::<A::Model, B::Model>(e)),
        }
    }

    open spec fn weight(m: Result<A::Model, B::Model>) -> nat {
        match m {
            Ok(x) => A::weight(x),
            Err(y) => B::weight(y),
        }
    }

    open spec fn within(m: Result<A::Model, B::Model>, size: nat) -> bool {
        match m {
            Ok(x) => A::within(x, size),
            Err(y) => B::within(y, size),
        }
    }

    proof fn lemma_shrink_lighter(m: Result<A::Model, B::Model>) {
        match m {
            Ok(x) => {
                A::lemma_shrink_lighter(x);
                assert forall|i: int| 0 <= i < Self::shrink_spec(m).len() implies #[trigger] Self::weight(
                    Self::shrink_spec(m)[i],
                ) < Self::weight(m) by {
                    assert(Self::shrink_spec(m)[i] == Ok::<A::Model, B::Model>(A::shrink_spec(x)[i]));
                }
            },
            Err(y) => {
                B::lemma_shrink_lighter(y);
                assert forall|i: int| 0 <= i < Self::shrink_spec(m).len() implies #[trigger] Self::weight(
                    Self::shrink_spec(m)[i],
                ) < Self::weight(m) by {
                    assert(Self::shrink_spec(m)[i] == Err::<A::Model, B::Model>(B::shrink_spec(y)[i]));
                }
            },
        }
    }

    fn arbitrary(g: &mut Gen) -> (r: Result<A, B>) {
        if g.gen_bool() {
            Ok(A::arbitrary(g))
        } else {
            Err(B::arbitrary(g))
        }
    }

    fn shrink(&self) -> (r: Vec<Result<A, B>>) {
        let mut r: Vec<Result<A, B>> = Vec::new();
        match self {
            Ok(x) => {
                let xs = x.shrink();
                let ghost cands = A::shrink_spec(x.model());
                let mut k: usize = 0;
                assert(r@.map_values(|o: Result<A, B>| o.model()) =~= cands.subrange(0, 0).map_values(
                    |e: A::Model| Ok::<A::Model, B::Model>(e),
                ));
                while k < xs.len()
                    invariant
                        k <= xs@.len(),
                        xs@.map_values(|e: A| e.model()) == cands,
                        r@.map_values(|o: Result<A, B>| o.model()) == cands.subrange(
                            0,
                            k as int,
                        ).map_values(|e: A::Model| Ok::<A::Model, B::Model>(e)),
                    decreases xs@.len() - k,
                {
                    let ghost prev = r@;
                    let e = xs[k].duplicate();
                    r.push(Ok(e));
                    proof {
                        lemma_map_push(prev, Ok(e), |o: Result<A, B>| o.model());
                        assert(cands[k as int] == xs@.map_values(|e: A| e.model())[k as int]);
                        assert(cands.subrange(0, k + 1).map_values(|e: A::Model| Ok::<A::Model, B::Model>(e))
                            =~= cands.subrange(0, k as int).map_values(
                            |e: A::Model| Ok::<A::Model, B::Model>(e),
                        ).push(Ok::<A::Model, B::Model>(cands[k as int])));
                    }
                    k += 1;
                }
                assert(cands.subrange(0, k as int) =~= cands);
            },
            Err(y) => {
                let ys = y.shrink();
                let ghost cands = B::shrink_spec(y.model());
                let mut k: usize = 0;
                assert(r@.map_values(|o: Result<A, B>| o.model()) =~= cands.subrange(0, 0).map_values(
                    |e: B::Model| Err::<A::Model, B::Model>(e),
                ));
                while k < ys.len()
                    invariant
                        k <= ys@.len(),
                        ys@.map_values(|e: B| e.model()) == cands,
                        r@.map_values(|o: Result<A, B>| o.model()) == cands.subrange(
                            0,
                            k as int,
                        ).map_values(|e: B::Model| Err::<A::Model, B::Model>(e)),
                    decreases ys@.len() - k,
                {
                    let ghost prev = r@;
                    let e = ys[k].duplicate();
                    r.push(Err(e));
                    proof {
                        lemma_map_push(prev, Err(e), |o: Result<A, B>| o.model());
                        assert(cands[k as int] == ys@.map_values(|e: B| e.model())[k as int]);
                        assert(cands.subrange(0, k + 1).map_values(|e: B::Model| Err::<A::Model, B::Model>(e))
                            =~= cands.subrange(0, k as int).map_values(
                            |e: B::Model| Err::<A::Model, B::Model>(e),
                        ).push(Err::<A::Model, B::Model>(cands[k as int])));
                    }
                    k += 1;
                }
                assert(cands.subrange(0, k as int) =~= cands);
            },
        }
        r
    }

    fn duplicate(&self) -> (r: Result<A, B>) {
        match self {
            Ok(x) => Ok(x.duplicate()),
            Err(y) => Err(y.duplicate()),
        }
    }
}

} // verus!
