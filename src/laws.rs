//! Laws that hold of every shrink sequence.
use vstd::prelude::*;

use crate::arbitrary::Arbitrary;
use crate::numbers::{half, halvings, unsigned_shrinks};
use crate::sequences::{
    all_removals, block_removals, element_shrinks, shrinks_at, vec_shrinks, without_block,
};

verus! {

/// A value of weight zero has no shrink candidates. Zero, `false`, `()`,
/// `None`, the empty vector, the empty string, the NUL character and tuples
/// of such values all weigh zero, so shrinking them yields nothing.
pub proof fn lemma_floor_has_no_candidates<A: Arbitrary>(m: A::Model)
    requires
        A::weight(m) == 0,
    ensures
        A::shrink_spec(m).len() == 0,
{
    A::lemma_shrink_lighter(m);
    if A::shrink_spec(m).len() > 0 {
        assert(A::weight(A::shrink_spec(m)[0]) < A::weight(m));
    }
}

/// Shrinking terminates: a chain of values, each a shrink candidate of the
/// one before, is never longer than the weight of its first value.
pub proof fn lemma_shrink_chain_bounded<A: Arbitrary>(chain: Seq<A::Model>)
    requires
        chain.len() > 0,
        forall|k: int|
            0 <= k < chain.len() - 1 ==> A::shrink_spec(chain[k]).contains(
                #[trigger] chain[k + 1],
            ),
    ensures
        chain.len() <= A::weight(chain[0]) + 1,
    decreases chain.len(),
{
    if chain.len() > 1 {
        let rest = chain.subrange(1, chain.len() as int);
        assert forall|k: int| 0 <= k < rest.len() - 1 implies A::shrink_spec(rest[k]).contains(
            #[trigger] rest[k + 1],
        ) by {
            assert(rest[k] == chain[k + 1]);
            assert(rest[k + 1] == chain[k + 2]);
        }
        lemma_shrink_chain_bounded::<A>(rest);
        A::lemma_shrink_lighter(chain[0]);
        let j = choose|j: int|
            0 <= j < A::shrink_spec(chain[0]).len() && A::shrink_spec(chain[0])[j] == chain[1];
        assert(A::weight(A::shrink_spec(chain[0])[j]) < A::weight(chain[0]));
    }
}

/// Whether `c` is `s` with one element replaced by one of its own shrink
/// candidates.
pub open spec fn one_element_shrunk<A: Arbitrary>(s: Seq<A::Model>, c: Seq<A::Model>) -> bool {
    exists|i: int, j: int|
        0 <= i < s.len() && 0 <= j < A::shrink_spec(s[i]).len() && c == s.update(
            i,
            #[trigger] A::shrink_spec(s[i])[j],
        )
}

/// Whether `c` is `s` with one non-empty run of consecutive elements taken
/// out, the other elements keeping their values and order.
pub open spec fn block_deleted<M>(s: Seq<M>, c: Seq<M>) -> bool {
    exists|j: int, k: int|
        0 <= j && 1 <= k && j + k <= s.len() && c == #[trigger] without_block(s, j, k)
}

/// Every block removal is shorter than the sequence, and takes out one run
/// of consecutive elements.
proof fn lemma_removals_shorter<M>(s: Seq<M>, k: nat)
    ensures
        forall|i: int|
            0 <= i < all_removals(s, k).len() ==> (#[trigger] all_removals(s, k)[i]).len()
                < s.len() && block_deleted(s, all_removals(s, k)[i]),
    decreases k,
{
    if k > 0 {
        lemma_removals_shorter(s, k / 2);
        let b = block_removals(s, k as int);
        assert forall|i: int| 0 <= i < all_removals(s, k).len() implies (
        #[trigger] all_removals(s, k)[i]).len() < s.len() && block_deleted(
            s,
            all_removals(s, k)[i],
        ) by {
            if i < b.len() {
                assert(i * k + k <= (s.len() as int / (k as int)) * k) by (nonlinear_arith)
                    requires
                        0 <= i < s.len() as int / (k as int),
                        k > 0,
                ;
                assert((s.len() as int / (k as int)) * k <= s.len()) by (nonlinear_arith)
                    requires
                        k > 0,
                ;
                assert(0 <= i * k) by (nonlinear_arith)
                    requires
                        0 <= i,
                        k > 0,
                ;
                assert(all_removals(s, k)[i] == without_block(s, i * k, k as int));
                assert(block_deleted(s, all_removals(s, k)[i]));
            } else {
                assert(all_removals(s, k)[i] == all_removals(s, k / 2)[i - b.len()]);
            }
        }
    }
}

/// Every element-wise candidate replaces one element by a candidate of it.
proof fn lemma_element_shrinks_replace_one<A: Arbitrary>(s: Seq<A::Model>, n: nat)
    requires
        n <= s.len(),
    ensures
        forall|i: int|
            0 <= i < element_shrinks::<A>(s, n).len() ==> one_element_shrunk::<A>(
                s,
                #[trigger] element_shrinks::<A>(s, n)[i],
            ),
    decreases n,
{
    if n > 0 {
        let m = (n - 1) as nat;
        lemma_element_shrinks_replace_one::<A>(s, m);
        let front = element_shrinks::<A>(s, m);
        let here = shrinks_at::<A>(s, n - 1);
        assert forall|i: int| 0 <= i < element_shrinks::<A>(s, n).len() implies one_element_shrunk::<
            A,
        >(s, #[trigger] element_shrinks::<A>(s, n)[i]) by {
            if i >= front.len() {
                let t = i - front.len();
                assert(element_shrinks::<A>(s, n)[i] == here[t]);
                assert(here[t] == s.update(n - 1, A::shrink_spec(s[n - 1])[t]));
            } else {
                assert(element_shrinks::<A>(s, n)[i] == front[i]);
            }
        }
    }
}

/// A vector never grows when shrunk: each candidate is the vector with one
/// non-empty run of consecutive elements deleted (the other elements
/// untouched), or has the same length and differs from the vector only in
/// one element, which is replaced by one of that element's own candidates.
pub proof fn lemma_vec_candidates_not_longer<A: Arbitrary>(s: Seq<A::Model>)
    ensures
        forall|i: int|
            0 <= i < vec_shrinks::<A>(s).len() ==> {
                let c = #[trigger] vec_shrinks::<A>(s)[i];
                (c.len() < s.len() && block_deleted(s, c)) || (c.len() == s.len()
                    && one_element_shrunk::<A>(s, c))
            },
{
    if s.len() > 0 {
        let rem = all_removals(s, s.len() / 2);
        let els = element_shrinks::<A>(s, s.len());
        lemma_removals_shorter(s, s.len() / 2);
        lemma_element_shrinks_replace_one::<A>(s, s.len());
        assert forall|i: int| 0 <= i < vec_shrinks::<A>(s).len() implies {
            let c = #[trigger] vec_shrinks::<A>(s)[i];
            (c.len() < s.len() && block_deleted(s, c)) || (c.len() == s.len()
                && one_element_shrunk::<A>(s, c))
        } by {
            if i == 0 {
                assert(vec_shrinks::<A>(s)[i] == Seq::<A::Model>::empty());
                assert(without_block(s, 0, s.len() as int) =~= Seq::<A::Model>::empty());
                assert(block_deleted(s, Seq::<A::Model>::empty()));
            } else if i < 1 + rem.len() {
                assert(vec_shrinks::<A>(s)[i] == rem[i - 1]);
            } else {
                let c = els[i - 1 - rem.len()];
                assert(vec_shrinks::<A>(s)[i] == c);
                assert(one_element_shrunk::<A>(s, c));
                let (p, q) = choose|p: int, q: int|
                    0 <= p < s.len() && 0 <= q < A::shrink_spec(s[p]).len() && c == s.update(
                        p,
                        #[trigger] A::shrink_spec(s[p])[q],
                    );
                assert(c.len() == s.len());
            }
        }
    }
}

/// The values `x - i`, `x - half(i)`, ... lie at or above `x - i` and
/// strictly increase.
proof fn lemma_halvings_increase(x: int, i: int)
    requires
        0 <= i <= x,
    ensures
        forall|a: int| 0 <= a < halvings(x, i).len() ==> #[trigger] halvings(x, i)[a] >= x - i,
        forall|a: int, b: int|
            0 <= a < b < halvings(x, i).len() ==> #[trigger] halvings(x, i)[a] < #[trigger] halvings(
                x,
                i,
            )[b],
    decreases i,
{
    if i > 0 {
        let t = halvings(x, half(i));
        lemma_halvings_increase(x, half(i));
        assert(halvings(x, i) == seq![x - i] + t);
        assert forall|a: int| 0 <= a < halvings(x, i).len() implies #[trigger] halvings(x, i)[a]
            >= x - i by {
            if a > 0 {
                assert(halvings(x, i)[a] == t[a - 1]);
            }
        }
        assert forall|a: int, b: int| 0 <= a < b < halvings(x, i).len() implies #[trigger] halvings(
            x,
            i,
        )[a] < #[trigger] halvings(x, i)[b] by {
            assert(halvings(x, i)[b] == t[b - 1]);
            if a > 0 {
                assert(halvings(x, i)[a] == t[a - 1]);
            }
        }
    }
}

/// The shrink candidates of a positive unsigned integer `x` are zero
/// followed by `x - x/2`, `x - x/4`, ... while the distance is not zero:
/// they start at zero, strictly increase, and all lie below `x`.
pub proof fn lemma_unsigned_candidates_increase(x: int)
    requires
        x > 0,
    ensures
        unsigned_shrinks(x) == seq![0int] + halvings(x, x / 2),
        unsigned_shrinks(x)[0] == 0,
        forall|a: int, b: int|
            0 <= a < b < unsigned_shrinks(x).len() ==> #[trigger] unsigned_shrinks(x)[a]
                < #[trigger] unsigned_shrinks(x)[b],
        forall|a: int| 0 <= a < unsigned_shrinks(x).len() ==> #[trigger] unsigned_shrinks(x)[a] < x,
{
    let t = halvings(x, half(x));
    lemma_halvings_increase(x, half(x));
    crate::numbers::lemma_unsigned_shrinks_below(x);
    assert(unsigned_shrinks(x) == seq![0int] + t);
    assert forall|a: int, b: int| 0 <= a < b < unsigned_shrinks(x).len() implies #[trigger] unsigned_shrinks(
        x,
    )[a] < #[trigger] unsigned_shrinks(x)[b] by {
        assert(unsigned_shrinks(x)[b] == t[b - 1]);
        if a > 0 {
            assert(unsigned_shrinks(x)[a] == t[a - 1]);
        }
    }
}

/// A pair shrinks by first trying every candidate of its first component with
/// the second unchanged, and then every candidate of its second component
/// with the first unchanged.
pub proof fn lemma_pair_shrink_order<A: Arbitrary, B: Arbitrary>(a: A::Model, b: B::Model)
    ensures
        <(A, B) as Arbitrary>::shrink_spec((a, b)) == A::shrink_spec(a).map_values(
            |x: A::Model| (x, b),
        ) + B::shrink_spec(b).map_values(|y: B::Model| (a, y)),
{
}

} // verus!
