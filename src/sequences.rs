//! Generation and shrinking of vectors and double-ended queues.
//!
//! A vector shrinks first to the empty vector, then by deleting blocks of
//! elements (blocks of half its length, then of a quarter, and so on, at
//! every position), and last by shrinking one element at a time while the
//! others stay as they are.
use vstd::prelude::*;

use crate::arbitrary::{lemma_map_push, Arbitrary};
use crate::gen::Gen;

verus! {

/// The models of the values in `v`.
pub open spec fn models<A: Arbitrary>(v: Seq<A>) -> Seq<A::Model> {
    v.map_values(|x: A| x.model())
}

/// The models of the vectors in `r`.
pub open spec fn vec_models<A: Arbitrary>(r: Seq<Vec<A>>) -> Seq<Seq<A::Model>> {
    r.map_values(|x: Vec<A>| models(x@))
}

/// `s` with the `k` elements that start at `start` taken out.
pub open spec fn without_block<M>(s: Seq<M>, start: int, k: int) -> Seq<M> {
    s.subrange(0, start) + s.subrange(start + k, s.len() as int)
}

/// `s` with each block of `k` elements taken out in turn, left to right.
pub open spec fn block_removals<M>(s: Seq<M>, k: int) -> Seq<Seq<M>> {
    Seq::new((s.len() as int / k) as nat, |j: int| without_block(s, j * k, k))
}

/// The block removals for block sizes `k`, `k / 2`, `k / 4`, ... down to one.
pub open spec fn all_removals<M>(s: Seq<M>, k: nat) -> Seq<Seq<M>>
    decreases k,
{
    if k == 0 {
        seq![]
    } else {
        block_removals(s, k as int) + all_removals(s, k / 2)
    }
}

/// `s` with its element at `i` replaced by each shrink candidate of that
/// element in turn.
pub open spec fn shrinks_at<A: Arbitrary>(s: Seq<A::Model>, i: int) -> Seq<Seq<A::Model>> {
    A::shrink_spec(s[i]).map_values(|e: A::Model| s.update(i, e))
}

/// The element-wise candidates for the first `n` positions of `s`.
pub open spec fn element_shrinks<A: Arbitrary>(s: Seq<A::Model>, n: nat) -> Seq<Seq<A::Model>>
    decreases n,
{
    if n == 0 {
        seq![]
    } else {
        element_shrinks::<A>(s, (n - 1) as nat) + shrinks_at::<A>(s, n - 1)
    }
}

/// The shrink candidates of a vector with models `s`.
pub open spec fn vec_shrinks<A: Arbitrary>(s: Seq<A::Model>) -> Seq<Seq<A::Model>> {
    if s.len() == 0 {
        seq![]
    } else {
        seq![seq![]] + all_removals(s, s.len() / 2) + element_shrinks::<A>(s, s.len())
    }
}

/// The weight of a vector: one more than its element's weight, for each
/// element.
pub open spec fn seq_weight<A: Arbitrary>(s: Seq<A::Model>) -> nat
    decreases s.len(),
{
    if s.len() == 0 {
        0
    } else {
        seq_weight::<A>(s.drop_last()) + A::weight(s.last()) + 1
    }
}

/// The weight of a concatenation is the sum of the weights.
pub proof fn lemma_seq_weight_add<A: Arbitrary>(a: Seq<A::Model>, b: Seq<A::Model>)
    ensures
        seq_weight::<A>(a + b) == seq_weight::<A>(a) + seq_weight::<A>(b),
    decreases b.len(),
{
    if b.len() == 0 {
        assert(a + b =~= a);
    } else {
        assert((a + b).drop_last() =~= a + b.drop_last());
        lemma_seq_weight_add::<A>(a, b.drop_last());
    }
}

/// A sequence weighs at least its length.
pub proof fn lemma_seq_weight_len<A: Arbitrary>(s: Seq<A::Model>)
    ensures
        seq_weight::<A>(s) >= s.len(),
    decreases s.len(),
{
    if s.len() > 0 {
        lemma_seq_weight_len::<A>(s.drop_last());
    }
}

/// Taking out a non-empty block makes a sequence lighter.
pub proof fn lemma_without_block_lighter<A: Arbitrary>(s: Seq<A::Model>, start: int, k: int)
    requires
        0 <= start,
        1 <= k,
        start + k <= s.len(),
    ensures
        seq_weight::<A>(without_block(s, start, k)) < seq_weight::<A>(s),
{
    let pre = s.subrange(0, start);
    let mid = s.subrange(start, start + k);
    let post = s.subrange(start + k, s.len() as int);
    assert(s =~= pre + mid + post);
    lemma_seq_weight_add::<A>(pre, mid);
    lemma_seq_weight_add::<A>(pre + mid, post);
    lemma_seq_weight_add::<A>(pre, post);
    lemma_seq_weight_len::<A>(mid);
}

/// Replacing an element by a lighter one makes a sequence lighter.
pub proof fn lemma_update_lighter<A: Arbitrary>(s: Seq<A::Model>, i: int, e: A::Model)
    requires
        0 <= i < s.len(),
        A::weight(e) < A::weight(s[i]),
    ensures
        seq_weight::<A>(s.update(i, e)) < seq_weight::<A>(s),
{
    let pre = s.subrange(0, i);
    let post = s.subrange(i + 1, s.len() as int);
    assert(s =~= pre + seq![s[i]] + post);
    assert(s.update(i, e) =~= pre + seq![e] + post);
    lemma_seq_weight_add::<A>(pre, seq![s[i]]);
    lemma_seq_weight_add::<A>(pre + seq![s[i]], post);
    lemma_seq_weight_add::<A>(pre, seq![e]);
    lemma_seq_weight_add::<A>(pre + seq![e], post);
    assert(seq![s[i]].drop_last() =~= Seq::<A::Model>::empty());
    assert(seq![e].drop_last() =~= Seq::<A::Model>::empty());
}

/// Every block removal is lighter than the sequence.
pub proof fn lemma_all_removals_lighter<A: Arbitrary>(s: Seq<A::Model>, k: nat)
    ensures
        forall|i: int|
            0 <= i < all_removals(s, k).len() ==> seq_weight::<A>(#[trigger] all_removals(s, k)[i])
                < seq_weight::<A>(s),
    decreases k,
{
    if k > 0 {
        lemma_all_removals_lighter::<A>(s, k / 2);
        let b = block_removals(s, k as int);
        assert forall|j: int| 0 <= j < b.len() implies seq_weight::<A>(#[trigger] b[j])
            < seq_weight::<A>(s) by {
            assert(j * k + k <= (s.len() as int / (k as int)) * k) by (nonlinear_arith)
                requires
                    0 <= j < s.len() as int / (k as int),
                    k > 0,
            ;
            assert((s.len() as int / (k as int)) * k <= s.len()) by (nonlinear_arith)
                requires
                    k > 0,
            ;
            assert(0 <= j * k) by (nonlinear_arith)
                requires
                    0 <= j,
                    k > 0,
            ;
            lemma_without_block_lighter::<A>(s, j * k, k as int);
        }
        assert forall|i: int| 0 <= i < all_removals(s, k).len() implies seq_weight::<A>(
            #[trigger] all_removals(s, k)[i],
        ) < seq_weight::<A>(s) by {
            if i >= b.len() {
                assert(all_removals(s, k)[i] == all_removals(s, k / 2)[i - b.len()]);
            } else {
                assert(all_removals(s, k)[i] == b[i]);
            }
        }
    }
}

/// Every element-wise candidate is lighter than the sequence.
pub proof fn lemma_element_shrinks_lighter<A: Arbitrary>(s: Seq<A::Model>, n: nat)
    requires
        n <= s.len(),
    ensures
        forall|i: int|
            0 <= i < element_shrinks::<A>(s, n).len() ==> seq_weight::<A>(
                #[trigger] element_shrinks::<A>(s, n)[i],
            ) < seq_weight::<A>(s),
    decreases n,
{
    if n > 0 {
        let m = (n - 1) as nat;
        lemma_element_shrinks_lighter::<A>(s, m);
        A::lemma_shrink_lighter(s[n - 1]);
        let front = element_shrinks::<A>(s, m);
        let here = shrinks_at::<A>(s, n - 1);
        assert forall|i: int| 0 <= i < element_shrinks::<A>(s, n).len() implies seq_weight::<A>(
            #[trigger] element_shrinks::<A>(s, n)[i],
        ) < seq_weight::<A>(s) by {
            if i >= front.len() {
                let t = i - front.len();
                assert(element_shrinks::<A>(s, n)[i] == here[t]);
                assert(A::weight(A::shrink_spec(s[n - 1])[t]) < A::weight(s[n - 1]));
                lemma_update_lighter::<A>(s, n - 1, A::shrink_spec(s[n - 1])[t]);
            } else {
                assert(element_shrinks::<A>(s, n)[i] == front[i]);
            }
        }
    }
}

/// Moving the next element of `b` over to `m` keeps the whole the same.
pub proof fn lemma_take_one<T>(m: Seq<T>, b: Seq<T>, j: int, rest: Seq<T>)
    requires
        0 <= j < b.len(),
    ensures
        m.push(b[j]) + b.subrange(j + 1, b.len() as int) + rest == m + b.subrange(
            j,
            b.len() as int,
        ) + rest,
{
    assert(m.push(b[j]) + b.subrange(j + 1, b.len() as int) + rest =~= m + b.subrange(
        j,
        b.len() as int,
    ) + rest);
}

/// A copy of `v` with the `k` elements that start at `start` taken out.
fn copy_without_block<A: Arbitrary>(v: &Vec<A>, start: usize, k: usize) -> (r: Vec<A>)
    requires
        start + k <= v@.len(),
    ensures
        models(r@) == without_block(models(v@), start as int, k as int),
{
    let ghost s = models(v@);
    let n = v.len();
    let mut r: Vec<A> = Vec::new();
    let mut i: usize = 0;
    while i < start
        invariant
            i <= start,
            start + k <= v@.len(),
            n == v@.len(),
            s == models(v@),
            models(r@) == s.subrange(0, i as int),
        decreases start - i,
    {
        let ghost prev = r@;
        r.push(v[i].duplicate());
        proof {
            lemma_map_push(prev, r@[i as int], |x: A| x.model());
            assert(s.subrange(0, i + 1) =~= s.subrange(0, i as int).push(s[i as int]));
        }
        i += 1;
    }
    let mut i: usize = start + k;
    while i < v.len()
        invariant
            start + k <= i <= v@.len(),
            s == models(v@),
            models(r@) == s.subrange(0, start as int) + s.subrange(start + k, i as int),
        decreases v@.len() - i,
    {
        let ghost prev = r@;
        r.push(v[i].duplicate());
        proof {
            lemma_map_push(prev, r@[r@.len() - 1], |x: A| x.model());
            assert(s.subrange(0, start as int) + s.subrange(start + k, i + 1) =~= (s.subrange(
                0,
                start as int,
            ) + s.subrange(start + k, i as int)).push(s[i as int]));
        }
        i += 1;
    }
    r
}

/// A copy of `v` with its element at `i` replaced by `e`.
fn copy_with<A: Arbitrary>(v: &Vec<A>, i: usize, e: A) -> (r: Vec<A>)
    requires
        i < v@.len(),
    ensures
        models(r@) == models(v@).update(i as int, e.model()),
{
    let ghost s = models(v@);
    let ghost em = e.model();
    let ghost t = s.update(i as int, em);
    let mut r: Vec<A> = Vec::new();
    let mut e_slot = Some(e);
    let mut j: usize = 0;
    while j < v.len()
        invariant
            j <= v@.len(),
            i < v@.len(),
            s == models(v@),
            t == s.update(i as int, em),
            j <= i ==> e_slot is Some && e_slot->0.model() == em,
            models(r@) == t.subrange(0, j as int),
        decreases v@.len() - j,
    {
        let ghost prev = r@;
        if j == i {
            let x = e_slot.take().unwrap();
            r.push(x);
        } else {
            r.push(v[j].duplicate());
        }
        proof {
            lemma_map_push(prev, r@[j as int], |x: A| x.model());
            assert(t.subrange(0, j + 1) =~= t.subrange(0, j as int).push(t[j as int]));
        }
        j += 1;
    }
    assert(t.subrange(0, j as int) =~= t);
    r
}

/// The larger of `size` and one: the bound below which lengths are drawn.
pub open spec fn length_bound(size: nat) -> nat {
    if size == 0 {
        1
    } else {
        size
    }
}

/// `n` values drawn one after the other, each within the generator's size.
pub fn vec_of_length<A: Arbitrary>(g: &mut Gen, n: u64) -> (r: Vec<A>)
    ensures
        r@.len() == n,
        forall|j: int| 0 <= j < n ==> A::within(#[trigger] r@[j].model(), old(g).size_spec() as nat),
        final(g).size_spec() == old(g).size_spec(),
{
    let mut r: Vec<A> = Vec::new();
    let mut i: u64 = 0;
    while i < n
        invariant
            i <= n,
            g.size_spec() == old(g).size_spec(),
            r@.len() == i,
            forall|j: int|
                0 <= j < i ==> A::within(#[trigger] r@[j].model(), old(g).size_spec() as nat),
        decreases n - i,
    {
        let x = A::arbitrary(g);
        r.push(x);
        i += 1;
    }
    r
}

impl<A: Arbitrary> Arbitrary for Vec<A> {
    type Model = Seq<A::Model>;

    open spec fn model(&self) -> Seq<A::Model> {
        models(self@)
    }

    open spec fn shrink_spec(m: Seq<A::Model>) -> Seq<Seq<A::Model>> {
        vec_shrinks::<A>(m)
    }

    open spec fn weight(m: Seq<A::Model>) -> nat {
        seq_weight::<A>(m)
    }

    open spec fn within(m: Seq<A::Model>, size: nat) -> bool {
        &&& m.len() < length_bound(size)
        &&& forall|i: int| 0 <= i < m.len() ==> A::within(#[trigger] m[i], size)
    }

    proof fn lemma_shrink_lighter(m: Seq<A::Model>) {
        if m.len() > 0 {
            let rem = all_removals(m, m.len() / 2);
            let els = element_shrinks::<A>(m, m.len());
            lemma_all_removals_lighter::<A>(m, m.len() / 2);
            lemma_element_shrinks_lighter::<A>(m, m.len());
            lemma_seq_weight_len::<A>(m);
            assert forall|i: int| 0 <= i < Self::shrink_spec(m).len() implies #[trigger] Self::weight(
                Self::shrink_spec(m)[i],
            ) < Self::weight(m) by {
                if i == 0 {
                    assert(Self::shrink_spec(m)[i] == Seq::<A::Model>::empty());
                } else if i < 1 + rem.len() {
                    assert(Self::shrink_spec(m)[i] == rem[i - 1]);
                } else {
                    assert(Self::shrink_spec(m)[i] == els[i - 1 - rem.len()]);
                }
            }
        }
    }

    fn arbitrary(g: &mut Gen) -> (r: Vec<A>) {
        let s = g.size();
        let bound: u64 = if s == 0 {
            1
        } else {
            s as u64
        };
        let n = g.gen_range(0, bound);
        vec_of_length(g, n)
    }

    fn shrink(&self) -> (r: Vec<Vec<A>>) {
        let ghost s = models(self@);
        let n = self.len();
        let mut r: Vec<Vec<A>> = Vec::new();
        if n == 0 {
            assert(vec_models(r@) =~= vec_shrinks::<A>(s));
            assert(r@.map_values(|x: Self| x.model()) =~= vec_models(r@));
            return r;
        }
        r.push(Vec::new());
        let ghost front = seq![Seq::<A::Model>::empty()] + all_removals(s, (n / 2) as nat);
        assert(models(r@[0]@) =~= Seq::<A::Model>::empty());
        assert(vec_models(r@) =~= seq![Seq::<A::Model>::empty()]);
        let mut k: usize = n / 2;
        while k > 0
            invariant
                n == self@.len(),
                s == models(self@),
                front == seq![Seq::<A::Model>::empty()] + all_removals(s, (n / 2) as nat),
                vec_models(r@) + all_removals(s, k as nat) == front,
            decreases k,
        {
            let ghost b = block_removals(s, k as int);
            let count = n / k;
            assert(all_removals(s, k as nat) == b + all_removals(s, (k / 2) as nat));
            assert(b.subrange(0, b.len() as int) =~= b);
            let mut j: usize = 0;
            while j < count
                invariant
                    n == self@.len(),
                    s == models(self@),
                    k > 0,
                    count == n / k,
                    b == block_removals(s, k as int),
                    b.len() == count,
                    j <= count,
                    vec_models(r@) + b.subrange(j as int, b.len() as int) + all_removals(s, (k / 2) as nat)
                        == front,
                decreases count - j,
            {
                assert(j * k + k <= n) by (nonlinear_arith)
                    requires
                        j < count,
                        count == n / k,
                        k > 0,
                ;
                let c = copy_without_block(self, j * k, k);
                proof {
                    lemma_take_one(vec_models(r@), b, j as int, all_removals(s, (k / 2) as nat));
                    assert(models(c@) == b[j as int]);
                }
                let ghost prev = r@;
                r.push(c);
                proof {
                    lemma_map_push(prev, c, |x: Vec<A>| models(x@));
                }
                j += 1;
            }
            assert(vec_models(r@) + b.subrange(j as int, b.len() as int) =~= vec_models(r@));
            k = k / 2;
        }
        assert(vec_models(r@) =~= vec_models(r@) + all_removals(s, 0));
        let mut i: usize = 0;
        while i < n
            invariant
                n == self@.len(),
                i <= n,
                s == models(self@),
                vec_models(r@) == front + element_shrinks::<A>(s, i as nat),
            decreases n - i,
        {
            let cands = self[i].shrink();
            let ghost here = shrinks_at::<A>(s, i as int);
            assert(s[i as int] == self@[i as int].model());
            assert(here.subrange(0, 0) =~= Seq::<Seq<A::Model>>::empty());
            assert(vec_models(r@) =~= front + element_shrinks::<A>(s, i as nat) + here.subrange(0, 0));
            let mut c: usize = 0;
            while c < cands.len()
                invariant
                    n == self@.len(),
                    i < n,
                    s == models(self@),
                    here == shrinks_at::<A>(s, i as int),
                    models(cands@) == A::shrink_spec(s[i as int]),
                    here.len() == cands@.len(),
                    c <= cands@.len(),
                    vec_models(r@) == front + element_shrinks::<A>(s, i as nat) + here.subrange(0, c as int),
                decreases cands@.len() - c,
            {
                let e = cands[c].duplicate();
                let v = copy_with(self, i, e);
                proof {
                    assert(cands@[c as int].model() == models(cands@)[c as int]);
                    assert(models(v@) == here[c as int]);
                }
                let ghost prev = r@;
                r.push(v);
                proof {
                    lemma_map_push(prev, v, |x: Vec<A>| models(x@));
                    assert(here.subrange(0, c + 1) =~= here.subrange(0, c as int).push(here[c as int]));
                    assert(front + element_shrinks::<A>(s, i as nat) + here.subrange(0, c + 1) =~= (front
                        + element_shrinks::<A>(s, i as nat) + here.subrange(0, c as int)).push(
                        here[c as int],
                    ));
                }
                c += 1;
            }
            assert(here.subrange(0, c as int) =~= here);
            assert(element_shrinks::<A>(s, (i + 1) as nat) == element_shrinks::<A>(s, i as nat) + here);
            assert(front + element_shrinks::<A>(s, (i + 1) as nat) =~= front + element_shrinks::<A>(
                s,
                i as nat,
            ) + here);
            i += 1;
        }
        assert(r@.map_values(|x: Self| x.model()) =~= vec_models(r@));
        r
    }

    fn duplicate(&self) -> (r: Vec<A>) {
        let ghost s = models(self@);
        let mut r: Vec<A> = Vec::new();
        let mut i: usize = 0;
        while i < self.len()
            invariant
                i <= self@.len(),
                s == models(self@),
                models(r@) == s.subrange(0, i as int),
            decreases self@.len() - i,
        {
            let ghost prev = r@;
            r.push(self[i].duplicate());
            proof {
                lemma_map_push(prev, r@[i as int], |x: A| x.model());
                assert(s.subrange(0, i + 1) =~= s.subrange(0, i as int).push(s[i as int]));
            }
            i += 1;
        }
        assert(s.subrange(0, i as int) =~= s);
        r
    }
}

/// A deque holding copies of the elements of `v`, in order.
fn deque_of<A: Arbitrary>(v: &Vec<A>) -> (r: std::collections::VecDeque<A>)
    ensures
        models(r@) == models(v@),
{
    let mut r: std::collections::VecDeque<A> = std::collections::VecDeque::new();
    let mut i: usize = 0;
    while i < v.len()
        invariant
            i <= v@.len(),
            models(r@) == models(v@).subrange(0, i as int),
        decreases v@.len() - i,
    {
        let ghost prev = r@;
        r.push_back(v[i].duplicate());
        proof {
            lemma_map_push(prev, r@[i as int], |x: A| x.model());
            assert(models(v@).subrange(0, i + 1) =~= models(v@).subrange(0, i as int).push(
                models(v@)[i as int],
            ));
        }
        i += 1;
    }
    assert(models(v@).subrange(0, i as int) =~= models(v@));
    r
}

/// A vector holding copies of the elements of `d`, in order.
fn vec_of_deque<A: Arbitrary>(d: &std::collections::VecDeque<A>) -> (r: Vec<A>)
    ensures
        models(r@) == models(d@),
{
    let mut r: Vec<A> = Vec::new();
    let mut i: usize = 0;
    while i < d.len()
        invariant
            i <= d@.len(),
            models(r@) == models(d@).subrange(0, i as int),
        decreases d@.len() - i,
    {
        let ghost prev = r@;
        r.push(d[i].duplicate());
        proof {
            lemma_map_push(prev, r@[i as int], |x: A| x.model());
            assert(models(d@).subrange(0, i + 1) =~= models(d@).subrange(0, i as int).push(
                models(d@)[i as int],
            ));
        }
        i += 1;
    }
    assert(models(d@).subrange(0, i as int) =~= models(d@));
    r
}

impl<A: Arbitrary> Arbitrary for std::collections::VecDeque<A> {
    type Model = Seq<A::Model>;

    open spec fn model(&self) -> Seq<A::Model> {
        models(self@)
    }

    open spec fn shrink_spec(m: Seq<A::Model>) -> Seq<Seq<A::Model>> {
        vec_shrinks::<A>(m)
    }

    open spec fn weight(m: Seq<A::Model>) -> nat {
        seq_weight::<A>(m)
    }

    open spec fn within(m: Seq<A::Model>, size: nat) -> bool {
        <Vec<A> as Arbitrary>::within(m, size)
    }

    proof fn lemma_shrink_lighter(m: Seq<A::Model>) {
        <Vec<A> as Arbitrary>::lemma_shrink_lighter(m);
        assert forall|i: int| 0 <= i < Self::shrink_spec(m).len() implies #[trigger] Self::weight(
            Self::shrink_spec(m)[i],
        ) < Self::weight(m) by {
            assert(<Vec<A> as Arbitrary>::weight(<Vec<A> as Arbitrary>::shrink_spec(m)[i])
                < <Vec<A> as Arbitrary>::weight(m));
        }
    }

    fn arbitrary(g: &mut Gen) -> (r: std::collections::VecDeque<A>) {
        let s = g.size();
        let bound: u64 = if s == 0 {
            1
        } else {
            s as u64
        };
        let n = g.gen_range(0, bound);
        let v = vec_of_length::<A>(g, n);
        deque_of(&v)
    }

    fn shrink(&self) -> (r: Vec<std::collections::VecDeque<A>>) {
        let v = vec_of_deque(self);
        let cands = v.shrink();
        let ghost spec = vec_shrinks::<A>(models(self@));
        let mut r: Vec<std::collections::VecDeque<A>> = Vec::new();
        let mut k: usize = 0;
        assert(r@.map_values(|d: std::collections::VecDeque<A>| models(d@)) =~= spec.subrange(0, 0));
        while k < cands.len()
            invariant
                k <= cands@.len(),
                spec == vec_shrinks::<A>(models(self@)),
                vec_models(cands@) == spec,
                r@.map_values(|d: std::collections::VecDeque<A>| models(d@)) == spec.subrange(
                    0,
                    k as int,
                ),
            decreases cands@.len() - k,
        {
            let d = deque_of(&cands[k]);
            proof {
                assert(models(cands@[k as int]@) == vec_models(cands@)[k as int]);
            }
            let ghost prev = r@;
            r.push(d);
            proof {
                lemma_map_push(prev, d, |d: std::collections::VecDeque<A>| models(d@));
                assert(spec.subrange(0, k + 1) =~= spec.subrange(0, k as int).push(spec[k as int]));
            }
            k += 1;
        }
        assert(spec.subrange(0, k as int) =~= spec);
        assert(r@.map_values(|x: Self| x.model()) =~= r@.map_values(
            |d: std::collections::VecDeque<A>| models(d@),
        ));
        r
    }

    fn duplicate(&self) -> (r: std::collections::VecDeque<A>) {
        let v = vec_of_deque(self);
        deque_of(&v)
    }
}

} // verus!
