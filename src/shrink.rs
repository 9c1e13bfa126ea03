//! Shrinking by mutating a pool of random bytes in place: zeroing blocks,
//! and reducing the words it holds by a modulus, a divisor or a difference.
//!
//! Each shrinker works on the bytes `from..to` of a pool and leaves the rest
//! alone. It returns whether it made a step; a shrinker that returns `false`
//! has left the pool as it was.
use vstd::prelude::*;

use crate::entropy_pool::le_value;

verus! {

/// A strategy that mutates part of a byte pool toward smaller values: the
/// bytes of the range, read as one little-endian number, never grow.
pub trait Shrinker: Sized {
    /// A shrinker in its initial state.
    fn fresh() -> Self;

    /// Takes one step on the bytes `from..to` of `pool`.
    fn use_shrinker(&mut self, size: usize, pool: &mut Vec<u8>, from: usize, to: usize) -> (r:
        bool)
        requires
            size > 0,
            from <= to <= old(pool)@.len(),
        ensures
            final(pool)@.len() == old(pool)@.len(),
            forall|k: int|
                0 <= k < old(pool)@.len() && !(from <= k < to) ==> #[trigger] final(pool)@[k]
                    == old(pool)@[k],
            !r ==> final(pool)@ == old(pool)@,
            le_value(final(pool)@.subrange(from as int, to as int)) <= le_value(
                old(pool)@.subrange(from as int, to as int),
            ),
    ;
}

/// The length of the next step of a divisor or difference that shrinks:
/// about half of `n` while `n` is larger than `2 + k`, one less below that.
fn shrink_usize(n: usize, k: usize) -> (r: usize)
    requires
        n > 0,
        k <= 16,
    ensures
        r < n,
        n > 2 + k ==> r == n / 2 + 1,
        n <= 2 + k ==> r == n - 1,
{
    if n > 2 + k {
        n / 2 + 1
    } else {
        n - 1
    }
}

/// `new` is `old` with the `width` bytes at `p` replaced by the
/// little-endian number `x`.
pub open spec fn word_replaced(old: Seq<u8>, new: Seq<u8>, p: int, width: int, x: nat) -> bool {
    &&& 0 <= p
    &&& p + width <= old.len()
    &&& new.len() == old.len()
    &&& le_value(new.subrange(p, p + width)) == x
    &&& forall|q: int| 0 <= q < old.len() && !(p <= q < p + width) ==> #[trigger] new[q] == old[q]
}

/// Whether the bytes of `s` in `from..to` are all zero.
pub open spec fn all_zero(s: Seq<u8>, from: int, to: int) -> bool {
    forall|k: int| from <= k < to ==> #[trigger] s[k] == 0
}

/// The width in bytes of the words a shrinker over `T` reads, if it can read
/// them (between one and eight bytes).
fn word_width<T>() -> (r: Option<usize>)
    ensures
        r matches Some(b) ==> 1 <= b <= 8 && b == vstd::layout::size_of::<T>(),
        r is None ==> !(1 <= vstd::layout::size_of::<T>() <= 8),
{
    let bytes = core::mem::size_of::<T>();
    if bytes == 0 || bytes > 8 {
        None
    } else {
        Some(bytes)
    }
}

/// The little-endian word of `bytes` bytes at `i`, if it lies before `to`.
pub(crate) fn read(pool: &Vec<u8>, i: usize, to: usize, bytes: usize) -> (r: Option<u64>)
    requires
        1 <= bytes <= 8,
        to <= pool@.len(),
    ensures
        r is Some <==> (i <= to && to - i >= bytes),
        r matches Some(w) ==> w == le_value(pool@.subrange(i as int, i + bytes)) && w < pow256(
            bytes as nat,
        ),
{
    if i > to || to - i < bytes {
        return None;
    }
    let mut w: u64 = 0;
    let mut k: usize = bytes;
    while k > 0
        invariant
            k <= bytes <= 8,
            i + bytes <= to <= pool@.len(),
            w == le_value(pool@.subrange(i + k, i + bytes)),
            w < pow256((bytes - k) as nat),
        decreases k,
    {
        k -= 1;
        let ghost old_w = w;
        proof {
            lemma_pow256_bound((bytes - k - 1) as nat);
            let s = pool@.subrange(i + k, i + bytes);
            assert(s.subrange(1, s.len() as int) =~= pool@.subrange(i + k + 1, i + bytes));
            assert(s[0] == pool@[i + k]);
        }
        w = pool[i + k] as u64 + 256 * w;
        proof {
            assert(pow256((bytes - k) as nat) == 256 * pow256((bytes - k - 1) as nat));
        }
    }
    Some(w)
}

/// `256` to the power `n`.
pub open spec fn pow256(n: nat) -> nat
    decreases n,
{
    if n == 0 {
        1
    } else {
        256 * pow256((n - 1) as nat)
    }
}

/// Seven powers of 256 fit in a `u64` with room for one more digit.
proof fn lemma_pow256_bound(n: nat)
    requires
        n <= 7,
    ensures
        pow256(n) <= pow256(7),
        pow256(7) == 0x100000000000000,
        pow256(n + 1) == 256 * pow256(n),
    decreases n,
{
    reveal_with_fuel(pow256, 8);
    if n > 0 {
        lemma_pow256_bound((n - 1) as nat);
    }
}

/// The value of a concatenation: the first part, plus the second shifted
/// past it.
pub proof fn lemma_le_value_concat(a: Seq<u8>, b: Seq<u8>)
    ensures
        le_value(a + b) == le_value(a) + pow256(a.len()) * le_value(b),
    decreases a.len(),
{
    reveal_with_fuel(pow256, 1);
    if a.len() == 0 {
        assert(a + b =~= b);
        assert(le_value(a) == 0);
        assert(pow256(0) == 1);
        assert(pow256(a.len()) * le_value(b) == le_value(b));
    } else {
        let a1 = a.subrange(1, a.len() as int);
        lemma_le_value_concat(a1, b);
        assert((a + b).subrange(1, (a + b).len() as int) =~= a1 + b);
        assert((a + b)[0] == a[0]);
        let p = pow256(a1.len());
        assert(pow256(a.len()) == 256 * p);
        assert(256 * (le_value(a1) + p * le_value(b)) == 256 * le_value(a1) + (256 * p)
            * le_value(b)) by (nonlinear_arith);
        assert(le_value(a) == a[0] + 256 * le_value(a1));
        assert(le_value(a + b) == (a + b)[0] + 256 * le_value(a1 + b));
    }
}

/// Zero bytes are worth zero.
pub proof fn lemma_le_value_zero(s: Seq<u8>)
    requires
        forall|k: int| 0 <= k < s.len() ==> #[trigger] s[k] == 0,
    ensures
        le_value(s) == 0,
    decreases s.len(),
{
    if s.len() > 0 {
        let s1 = s.subrange(1, s.len() as int);
        assert forall|k: int| 0 <= k < s1.len() implies #[trigger] s1[k] == 0 by {
            assert(s1[k] == s[k + 1]);
        }
        lemma_le_value_zero(s1);
    }
}

/// Lowering the value of a window, and changing nothing outside it, lowers
/// the value of the whole.
pub proof fn lemma_window_lower(s: Seq<u8>, t: Seq<u8>, i: int, k: int)
    requires
        0 <= i <= i + k <= s.len(),
        t.len() == s.len(),
        forall|q: int| 0 <= q < s.len() && !(i <= q < i + k) ==> #[trigger] t[q] == s[q],
        le_value(t.subrange(i, i + k)) <= le_value(s.subrange(i, i + k)),
    ensures
        le_value(t) <= le_value(s),
{
    let sp = s.subrange(0, i);
    let sm = s.subrange(i, i + k);
    let ss = s.subrange(i + k, s.len() as int);
    let tp = t.subrange(0, i);
    let tm = t.subrange(i, i + k);
    let ts = t.subrange(i + k, t.len() as int);
    assert(sp =~= tp);
    assert(ss =~= ts);
    assert(s =~= sp + (sm + ss));
    assert(t =~= tp + (tm + ts));
    lemma_le_value_concat(sp, sm + ss);
    lemma_le_value_concat(sm, ss);
    lemma_le_value_concat(tp, tm + ts);
    lemma_le_value_concat(tm, ts);
    let pi = pow256(sp.len());
    let pk = pow256(sm.len());
    assert(sm.len() == tm.len());
    assert(pi * (le_value(tm) + pk * le_value(ss)) <= pi * (le_value(sm) + pk * le_value(ss)))
        by (nonlinear_arith)
        requires
            le_value(tm) <= le_value(sm),
    ;
}

/// The same, for a window inside the range `from..to` of a pool.
pub proof fn lemma_range_lower(old_pool: Seq<u8>, new_pool: Seq<u8>, from: int, to: int, i: int, k: int)
    requires
        0 <= from <= i <= i + k <= to <= old_pool.len(),
        new_pool.len() == old_pool.len(),
        forall|q: int|
            0 <= q < old_pool.len() && !(i <= q < i + k) ==> #[trigger] new_pool[q] == old_pool[q],
        le_value(new_pool.subrange(i, i + k)) <= le_value(old_pool.subrange(i, i + k)),
    ensures
        le_value(new_pool.subrange(from, to)) <= le_value(old_pool.subrange(from, to)),
{
    let s = old_pool.subrange(from, to);
    let t = new_pool.subrange(from, to);
    assert(s.subrange(i - from, i - from + k) =~= old_pool.subrange(i, i + k));
    assert(t.subrange(i - from, i - from + k) =~= new_pool.subrange(i, i + k));
    assert forall|q: int| 0 <= q < s.len() && !(i - from <= q < i - from + k) implies #[trigger] t[q]
        == s[q] by {
        assert(t[q] == new_pool[q + from]);
        assert(s[q] == old_pool[q + from]);
    }
    lemma_window_lower(s, t, i - from, k);
}

/// Writes the low `bytes` bytes of `x`, little-endian, at `i`, if they fit
/// before `to`; otherwise leaves the pool as it is.
fn write(x: u64, pool: &mut Vec<u8>, i: usize, to: usize, bytes: usize)
    requires
        1 <= bytes <= 8,
        to <= old(pool)@.len(),
    ensures
        final(pool)@.len() == old(pool)@.len(),
        forall|k: int|
            0 <= k < old(pool)@.len() && !(i <= k < i + bytes) ==> #[trigger] final(pool)@[k]
                == old(pool)@[k],
        !(i <= to && to - i >= bytes) ==> final(pool)@ == old(pool)@,
        i <= to && to - i >= bytes && x < pow256(bytes as nat) ==> le_value(
            final(pool)@.subrange(i as int, i + bytes),
        ) == x,
{
    if i > to || to - i < bytes {
        return;
    }
    let mut rest = x;
    let mut k: usize = 0;
    proof {
        reveal_with_fuel(pow256, 1);
        assert(pool@.subrange(i as int, i as int) =~= Seq::<u8>::empty());
        assert(le_value(pool@.subrange(i as int, i as int)) == 0);
        assert(pow256(0) == 1);
        assert(pow256(0) * rest == rest);
    }
    while k < bytes
        invariant
            k <= bytes <= 8,
            i + bytes <= to <= pool@.len(),
            pool@.len() == old(pool)@.len(),
            forall|q: int|
                0 <= q < old(pool)@.len() && !(i <= q < i + bytes) ==> #[trigger] pool@[q]
                    == old(pool)@[q],
            le_value(pool@.subrange(i as int, i + k)) + pow256(k as nat) * rest == x,
        decreases bytes - k,
    {
        let ghost before = pool@;
        let ghost r0 = rest;
        let b = (rest % 256) as u8;
        pool.set(i + k, b);
        rest = rest / 256;
        proof {
            let lo = pool@.subrange(i as int, i + k);
            assert(lo =~= before.subrange(i as int, i + k));
            assert(pool@.subrange(i as int, i + k + 1) =~= lo + seq![b]);
            lemma_le_value_concat(lo, seq![b]);
            reveal_with_fuel(le_value, 2);
            assert(seq![b].subrange(1, 1) =~= Seq::<u8>::empty());
            assert(le_value(seq![b]) == b as nat);
            lemma_pow256_step(k as nat);
            let p = pow256(k as nat);
            assert(p * (r0 % 256) + (256 * p) * (r0 / 256) == p * r0) by (nonlinear_arith)
                requires
                    r0 == 256 * (r0 / 256) + r0 % 256,
            ;
        }
        k += 1;
    }
    proof {
        if x < pow256(bytes as nat) {
            lemma_le_value_bound(pool@.subrange(i as int, i + bytes));
            assert(rest == 0) by (nonlinear_arith)
                requires
                    le_value(pool@.subrange(i as int, i + bytes)) + pow256(bytes as nat) * rest
                        == x,
                    x < pow256(bytes as nat),
                    pow256(bytes as nat) > 0,
            ;
        }
    }
}

/// One more power of 256.
proof fn lemma_pow256_step(n: nat)
    ensures
        pow256(n + 1) == 256 * pow256(n),
        pow256(n) > 0,
    decreases n,
{
    reveal_with_fuel(pow256, 2);
    if n > 0 {
        lemma_pow256_step((n - 1) as nat);
    }
}

/// The value of `s` is below 256 to the power of its length.
proof fn lemma_le_value_bound(s: Seq<u8>)
    ensures
        le_value(s) < pow256(s.len()),
    decreases s.len(),
{
    lemma_pow256_step(s.len());
    if s.len() > 0 {
        let s1 = s.subrange(1, s.len() as int);
        lemma_le_value_bound(s1);
        lemma_pow256_step(s1.len());
        assert(s[0] + 256 * le_value(s1) < 256 * pow256(s1.len())) by (nonlinear_arith)
            requires
                s[0] < 256,
                le_value(s1) + 1 <= pow256(s1.len()),
        ;
    }
}

/// Zeroes the whole of its range, unless it is zero already.
#[derive(Debug)]
pub struct ZeroOut;

impl ZeroOut {
    /// Zeroes the bytes `from..to` of `pool`; returns whether any of them
    /// was not zero.
    pub fn zero_block(&mut self, pool: &mut Vec<u8>, from: usize, to: usize) -> (r: bool)
        requires
            from <= to <= old(pool)@.len(),
        ensures
            r == !all_zero(old(pool)@, from as int, to as int),
            all_zero(final(pool)@, from as int, to as int),
            final(pool)@.len() == old(pool)@.len(),
            forall|k: int|
                0 <= k < old(pool)@.len() && !(from <= k < to) ==> #[trigger] final(pool)@[k]
                    == old(pool)@[k],
            !r ==> final(pool)@ == old(pool)@,
            le_value(final(pool)@.subrange(from as int, to as int)) <= le_value(
                old(pool)@.subrange(from as int, to as int),
            ),
    {
        let mut k: usize = from;
        let mut zero = true;
        while k < to
            invariant
                from <= k <= to <= pool@.len(),
                zero == all_zero(pool@, from as int, k as int),
            decreases to - k,
        {
            if pool[k] != 0 {
                zero = false;
            }
            k += 1;
        }
        if zero {
            return false;
        }
        let mut k: usize = from;
        while k < to
            invariant
                from <= k <= to <= pool@.len(),
                pool@.len() == old(pool)@.len(),
                all_zero(pool@, from as int, k as int),
                forall|q: int|
                    0 <= q < old(pool)@.len() && !(from <= q < k) ==> #[trigger] pool@[q]
                        == old(pool)@[q],
            decreases to - k,
        {
            pool.set(k, 0);
            k += 1;
        }
        proof {
            let sub = pool@.subrange(from as int, to as int);
            assert forall|q: int| 0 <= q < sub.len() implies #[trigger] sub[q] == 0 by {
                assert(sub[q] == pool@[from + q]);
            }
            lemma_le_value_zero(sub);
        }
        true
    }
}

impl Shrinker for ZeroOut {
    fn fresh() -> (r: ZeroOut) {
        ZeroOut
    }

    fn use_shrinker(&mut self, size: usize, pool: &mut Vec<u8>, from: usize, to: usize) -> (r:
        bool) {
        self.zero_block(pool, from, to)
    }
}

/// Replaces each word of type `T` in its range by that word modulo the size,
/// where that is not zero.
#[derive(Debug)]
pub struct ModuloSize<T> {
    phantom: core::marker::PhantomData<T>,
}

/// The `j`-th word of width `w` from `from` on in `s`, as a little-endian
/// number.
pub open spec fn word_of(s: Seq<u8>, from: int, j: int, w: int) -> nat {
    le_value(s.subrange(from + j * w, from + j * w + w))
}

/// A word after a modulo step: `v` modulo `size` where that is not zero,
/// and `v` itself otherwise.
pub open spec fn modulo_word(v: nat, size: nat) -> nat {
    if v % size != 0 {
        v % size
    } else {
        v
    }
}

/// Where the words `j` and `j + 1` of width `w` start, from `from` on.
proof fn lemma_word_bounds(from: int, j: int, c: int, w: int)
    requires
        0 <= j < c,
        w >= 1,
        from >= 0,
    ensures
        from <= from + j * w,
        from + j * w + w <= from + c * w,
        from + c * w + w == from + (c + 1) * w,
{
    assert(j * w + w <= c * w) by (nonlinear_arith)
        requires
            j < c,
            w >= 1,
    ;
    assert(0 <= j * w) by (nonlinear_arith)
        requires
            0 <= j,
            w >= 1,
    ;
    assert(c * w + w == (c + 1) * w) by (nonlinear_arith);
}

impl<T> ModuloSize<T> {
    /// Replaces each whole word of its range by that word modulo `size`,
    /// where that is not zero; returns whether some word was so replaced.
    pub fn reduce_words(&mut self, size: usize, pool: &mut Vec<u8>, from: usize, to: usize) -> (r:
        bool)
        requires
            size > 0,
            from <= to <= old(pool)@.len(),
        ensures
            final(pool)@.len() == old(pool)@.len(),
            forall|k: int|
                0 <= k < old(pool)@.len() && !(from <= k < to) ==> #[trigger] final(pool)@[k]
                    == old(pool)@[k],
            !r ==> final(pool)@ == old(pool)@,
            le_value(final(pool)@.subrange(from as int, to as int)) <= le_value(
                old(pool)@.subrange(from as int, to as int),
            ),
            1 <= vstd::layout::size_of::<T>() <= 8 ==> forall|j: int|
                0 <= j && from + (j + 1) * vstd::layout::size_of::<T>() <= to ==> #[trigger] word_of(
                    final(pool)@,
                    from as int,
                    j,
                    vstd::layout::size_of::<T>() as int,
                ) == modulo_word(
                    word_of(old(pool)@, from as int, j, vstd::layout::size_of::<T>() as int),
                    size as nat,
                ),
    {
        let bytes = match word_width::<T>() {
            Some(b) => b,
            None => {
                return false;
            },
        };
        let ghost wd = bytes as int;
        let ghost mut c: int = 0;
        let mut changed = false;
        let mut i: usize = from;
        while i <= to && to - i >= bytes
            invariant
                size > 0,
                1 <= bytes <= 8,
                bytes == vstd::layout::size_of::<T>(),
                wd == bytes,
                from <= i,
                c >= 0,
                i == from + c * wd,
                to <= pool@.len(),
                pool@.len() == old(pool)@.len(),
                forall|q: int|
                    0 <= q < old(pool)@.len() && !(from <= q < to) ==> #[trigger] pool@[q]
                        == old(pool)@[q],
                forall|q: int| i <= q < pool@.len() ==> #[trigger] pool@[q] == old(pool)@[q],
                !changed ==> pool@ == old(pool)@,
                le_value(pool@.subrange(from as int, to as int)) <= le_value(
                    old(pool)@.subrange(from as int, to as int),
                ),
                forall|j: int|
                    0 <= j < c ==> #[trigger] word_of(pool@, from as int, j, wd) == modulo_word(
                        word_of(old(pool)@, from as int, j, wd),
                        size as nat,
                    ),
            decreases to + 8 - i,
        {
            let ghost before = pool@;
            assert(forall|j: int|
                0 <= j < c ==> #[trigger] word_of(before, from as int, j, wd) == modulo_word(
                    word_of(old(pool)@, from as int, j, wd),
                    size as nat,
                ));
            let w = read(pool, i, to, bytes).unwrap();
            proof {
                assert(before.subrange(i as int, i + bytes) =~= old(pool)@.subrange(
                    i as int,
                    i + bytes,
                ));
                assert(from + c * wd == i);
                assert(w == word_of(old(pool)@, from as int, c, wd));
            }
            let x = w % (size as u64);
            if x != 0 {
                changed = true;
                assert(x <= w) by (nonlinear_arith)
                    requires
                        x == w % (size as u64),
                        size > 0,
                ;
                write(x, pool, i, to, bytes);
                proof {
                    lemma_range_lower(before, pool@, from as int, to as int, i as int, bytes as int);
                }
            }
            proof {
                assert(word_of(pool@, from as int, c, wd) == modulo_word(
                    word_of(old(pool)@, from as int, c, wd),
                    size as nat,
                ));
                assert forall|j: int| 0 <= j < c + 1 implies #[trigger] word_of(
                    pool@,
                    from as int,
                    j,
                    wd,
                ) == modulo_word(word_of(old(pool)@, from as int, j, wd), size as nat) by {
                    if j < c {
                        lemma_word_bounds(from as int, j, c, wd);
                        assert(pool@.subrange(from + j * wd, from + j * wd + wd) =~= before.subrange(
                            from + j * wd,
                            from + j * wd + wd,
                        ));
                        assert(word_of(pool@, from as int, j, wd) == word_of(before, from as int, j, wd));
                        assert(word_of(before, from as int, j, wd) == modulo_word(
                            word_of(old(pool)@, from as int, j, wd),
                            size as nat,
                        ));
                    }
                }
                assert(from + c * wd + wd == from + (c + 1) * wd) by (nonlinear_arith);
                c = c + 1;
            }
            i += bytes;
        }
        proof {
            assert forall|j: int|
                0 <= j && from + (j + 1) * wd <= to implies #[trigger] word_of(
                pool@,
                from as int,
                j,
                wd,
            ) == modulo_word(word_of(old(pool)@, from as int, j, wd), size as nat) by {
                if j >= c {
                    assert(from + (j + 1) * wd >= from + c * wd + wd) by (nonlinear_arith)
                        requires
                            j >= c,
                            wd >= 1,
                    ;
                }
            }
        }
        changed
    }
}

impl<T> Shrinker for ModuloSize<T> {
    fn fresh() -> (r: ModuloSize<T>) {
        ModuloSize { phantom: core::marker::PhantomData }
    }

    fn use_shrinker(&mut self, size: usize, pool: &mut Vec<u8>, from: usize, to: usize) -> (r:
        bool) {
        self.reduce_words(size, pool, from, to)
    }
}

/// Divides one word of type `T` at a time by a divisor that starts at 255
/// and shrinks once no word in the range is above it.
#[derive(Debug)]
pub struct DivShrinker<T> {
    i: usize,
    div: u8,
    phantom: core::marker::PhantomData<T>,
}

impl<T> DivShrinker<T> {
    /// One step: the next word above the divisor, from the remembered
    /// position on, is divided by it; when none is left, the divisor
    /// shrinks and the search starts over.
    fn step(&mut self, pool: &mut Vec<u8>, from: usize, to: usize) -> (r: bool)
        requires
            from <= to <= old(pool)@.len(),
        ensures
            final(pool)@.len() == old(pool)@.len(),
            forall|k: int|
                0 <= k < old(pool)@.len() && !(from <= k < to) ==> #[trigger] final(pool)@[k]
                    == old(pool)@[k],
            !r ==> final(pool)@ == old(pool)@,
            le_value(final(pool)@.subrange(from as int, to as int)) <= le_value(
                old(pool)@.subrange(from as int, to as int),
            ),
            r ==> exists|p: int, d: nat|
                from <= p && p + vstd::layout::size_of::<T>() <= to && 1 <= d <= old(self).div
                    && le_value(old(pool)@.subrange(p, p + vstd::layout::size_of::<T>())) > d
                    && #[trigger] word_replaced(
                    old(pool)@,
                    final(pool)@,
                    p,
                    vstd::layout::size_of::<T>() as int,
                    (le_value(old(pool)@.subrange(p, p + vstd::layout::size_of::<T>())) / d) as nat,
                ),
        decreases old(self).div,
    {
        if self.div == 0 {
            return false;
        }
        let bytes = match word_width::<T>() {
            Some(b) => b,
            None => {
                return false;
            },
        };
        let div = self.div as u64;
        let mut i = self.i;
        while i < to - from
            invariant
                from <= to <= pool@.len(),
                1 <= bytes <= 8,
                div > 0,
                pool@ == old(pool)@,
                bytes == vstd::layout::size_of::<T>(),
                self.div == old(self).div,
                div == self.div as u64,
            decreases to - from - i,
        {
            match read(pool, from + i, to, bytes) {
                Some(w) => {
                    if w != 0 && w > div {
                        let ghost before = pool@;
                        assert(w / div <= w) by (nonlinear_arith)
                            requires
                                w > div,
                                div > 0,
                        ;
                        write(w / div, pool, from + i, to, bytes);
                        proof {
                            assert(word_replaced(
                                before,
                                pool@,
                                from + i,
                                bytes as int,
                                (w / div) as nat,
                            ));
                            let pp = from + i;
                            let dd = div as nat;
                            assert(before == old(pool)@);
                            assert(bytes == vstd::layout::size_of::<T>());
                            assert(w == le_value(old(pool)@.subrange(pp, pp + bytes)));
                            assert(from <= pp && pp + vstd::layout::size_of::<T>() <= to && 1 <= dd
                                <= old(self).div && le_value(
                                old(pool)@.subrange(pp, pp + vstd::layout::size_of::<T>()),
                            ) > dd && word_replaced(
                                old(pool)@,
                                pool@,
                                pp,
                                vstd::layout::size_of::<T>() as int,
                                (le_value(old(pool)@.subrange(pp, pp + vstd::layout::size_of::<T>()))
                                    / dd) as nat,
                            ));
                        }
                        proof {
                            lemma_range_lower(
                                before,
                                pool@,
                                from as int,
                                to as int,
                                from + i,
                                bytes as int,
                            );
                        }
                        self.i = i + 1;
                        return true;
                    }
                },
                None => {
                    break;
                },
            }
            i += 1;
        }
        self.i = 0;
        self.div = shrink_usize(div as usize, 16) as u8;
        if self.div == 0 {
            false
        } else {
            self.step(pool, from, to)
        }
    }
}

impl<T> Shrinker for DivShrinker<T> {
    fn fresh() -> (r: DivShrinker<T>) {
        DivShrinker { i: 0, div: 255, phantom: core::marker::PhantomData }
    }

    fn use_shrinker(&mut self, size: usize, pool: &mut Vec<u8>, from: usize, to: usize) -> (r:
        bool) {
        self.step(pool, from, to)
    }
}

/// Lowers one word of type `T` at a time by a difference that starts at 255
/// and shrinks once no word in the range is above it.
#[derive(Debug)]
pub struct SubShrinker<T> {
    i: usize,
    sub: u8,
    phantom: core::marker::PhantomData<T>,
}

impl<T> SubShrinker<T> {
    /// One step: the next word above the difference, from the remembered
    /// position on, is lowered by it; when none is left, the difference
    /// shrinks and the search starts over.
    fn step(&mut self, pool: &mut Vec<u8>, from: usize, to: usize) -> (r: bool)
        requires
            from <= to <= old(pool)@.len(),
        ensures
            final(pool)@.len() == old(pool)@.len(),
            forall|k: int|
                0 <= k < old(pool)@.len() && !(from <= k < to) ==> #[trigger] final(pool)@[k]
                    == old(pool)@[k],
            !r ==> final(pool)@ == old(pool)@,
            le_value(final(pool)@.subrange(from as int, to as int)) <= le_value(
                old(pool)@.subrange(from as int, to as int),
            ),
            r ==> exists|p: int, d: nat|
                from <= p && p + vstd::layout::size_of::<T>() <= to && 1 <= d <= old(self).sub
                    && le_value(old(pool)@.subrange(p, p + vstd::layout::size_of::<T>())) > d
                    && #[trigger] word_replaced(
                    old(pool)@,
                    final(pool)@,
                    p,
                    vstd::layout::size_of::<T>() as int,
                    (le_value(old(pool)@.subrange(p, p + vstd::layout::size_of::<T>())) - d) as nat,
                ),
        decreases old(self).sub,
    {
        if self.sub == 0 {
            return false;
        }
        let bytes = match word_width::<T>() {
            Some(b) => b,
            None => {
                return false;
            },
        };
        let sub = self.sub as u64;
        let mut i = self.i;
        while i < to - from
            invariant
                from <= to <= pool@.len(),
                1 <= bytes <= 8,
                sub > 0,
                pool@ == old(pool)@,
                bytes == vstd::layout::size_of::<T>(),
                self.sub == old(self).sub,
                sub == self.sub as u64,
            decreases to - from - i,
        {
            match read(pool, from + i, to, bytes) {
                Some(w) => {
                    if w != 0 && w > sub {
                        let ghost before = pool@;
                        assert(w - sub <= w) by (nonlinear_arith)
                            requires
                                w > sub,
                                sub > 0,
                        ;
                        write(w - sub, pool, from + i, to, bytes);
                        proof {
                            assert(word_replaced(
                                before,
                                pool@,
                                from + i,
                                bytes as int,
                                (w - sub) as nat,
                            ));
                            let pp = from + i;
                            let dd = sub as nat;
                            assert(before == old(pool)@);
                            assert(bytes == vstd::layout::size_of::<T>());
                            assert(w == le_value(old(pool)@.subrange(pp, pp + bytes)));
                            assert(from <= pp && pp + vstd::layout::size_of::<T>() <= to && 1 <= dd
                                <= old(self).sub && le_value(
                                old(pool)@.subrange(pp, pp + vstd::layout::size_of::<T>()),
                            ) > dd && word_replaced(
                                old(pool)@,
                                pool@,
                                pp,
                                vstd::layout::size_of::<T>() as int,
                                (le_value(old(pool)@.subrange(pp, pp + vstd::layout::size_of::<T>()))
                                    - dd) as nat,
                            ));
                        }
                        proof {
                            lemma_range_lower(
                                before,
                                pool@,
                                from as int,
                                to as int,
                                from + i,
                                bytes as int,
                            );
                        }
                        self.i = i + 1;
                        return true;
                    }
                },
                None => {
                    break;
                },
            }
            i += 1;
        }
        self.i = 0;
        self.sub = shrink_usize(sub as usize, 16) as u8;
        if self.sub == 0 {
            false
        } else {
            self.step(pool, from, to)
        }
    }
}

impl<T> Shrinker for SubShrinker<T> {
    fn fresh() -> (r: SubShrinker<T>) {
        SubShrinker { i: 0, sub: 255, phantom: core::marker::PhantomData }
    }

    fn use_shrinker(&mut self, size: usize, pool: &mut Vec<u8>, from: usize, to: usize) -> (r:
        bool) {
        self.step(pool, from, to)
    }
}

/// Cuts its range into blocks, first the whole range, then thirds, then
/// sevenths and so on, and lets the inner shrinker try one block after the
/// other.
#[derive(Debug)]
pub struct BlockShrinker<S> {
    recip_size: usize,
    block_index: usize,
    shrinker: S,
}

impl<S: Shrinker> Shrinker for BlockShrinker<S> {
    fn fresh() -> (r: BlockShrinker<S>) {
        BlockShrinker { recip_size: 1, block_index: 0, shrinker: S::fresh() }
    }

    fn use_shrinker(&mut self, size: usize, pool: &mut Vec<u8>, from: usize, to: usize) -> (r:
        bool) {
        let len = to - from;
        if self.recip_size == 0 {
            return false;
        }
        loop
            invariant
                size > 0,
                from <= to <= pool@.len(),
                len == to - from,
                self.recip_size >= 1,
                pool@ == old(pool)@,
            decreases 2 * len + 2 - self.recip_size,
        {
            let block_size = len / self.recip_size;
            if block_size == 0 {
                return false;
            }
            assert(self.recip_size <= len) by (nonlinear_arith)
                requires
                    block_size == len / self.recip_size,
                    block_size >= 1,
                    self.recip_size >= 1,
            ;
            let blocks = len / block_size;
            let ghost recip = self.recip_size;
            while self.block_index <= blocks
                invariant
                    size > 0,
                    from <= to <= pool@.len(),
                    len == to - from,
                    block_size >= 1,
                    blocks == len / block_size,
                    self.recip_size == recip,
                    self.recip_size >= 1,
                    self.recip_size <= len,
                    pool@ == old(pool)@,
                decreases blocks + 1 - self.block_index,
            {
                assert(block_size * self.block_index <= len) by (nonlinear_arith)
                    requires
                        self.block_index <= blocks,
                        blocks == len / block_size,
                        block_size >= 1,
                ;
                let i = block_size * self.block_index;
                if i >= len {
                    break;
                }
                let i_max = if len - i < block_size {
                    len
                } else {
                    i + block_size
                };
                assert(self.block_index <= i) by (nonlinear_arith)
                    requires
                        i == block_size * self.block_index,
                        block_size >= 1,
                ;
                if self.shrinker.use_shrinker(size, pool, from + i, from + i_max) {
                    proof {
                        lemma_range_lower(
                            old(pool)@,
                            pool@,
                            from as int,
                            to as int,
                            from + i,
                            i_max - i,
                        );
                    }
                    self.block_index = self.block_index + 1;
                    return true;
                }
                self.block_index = self.block_index + 1;
            }
            self.block_index = 0;
            if self.recip_size > len || self.recip_size > (usize::MAX - 1) / 2 {
                return false;
            }
            self.recip_size = self.recip_size * 2 + 1;
        }
    }
}

/// The strategy a standard shrinker is using, with its state.
#[derive(Debug)]
pub enum StdShrinkerBody {
    Zero(BlockShrinker<ZeroOut>),
    Mod64(BlockShrinker<ModuloSize<u64>>),
    Div64(DivShrinker<u64>),
    Sub64(SubShrinker<u64>),
    Mod32(BlockShrinker<ModuloSize<u32>>),
    Div32(DivShrinker<u32>),
    Sub32(SubShrinker<u32>),
    Mod8(BlockShrinker<ModuloSize<u8>>),
    Div8(DivShrinker<u8>),
    Sub8(SubShrinker<u8>),
}

impl StdShrinkerBody {
    /// The place of the strategy in the cycle of strategies.
    pub open spec fn ordinal(&self) -> int {
        match self {
            StdShrinkerBody::Zero(_) => 0,
            StdShrinkerBody::Mod64(_) => 1,
            StdShrinkerBody::Div64(_) => 2,
            StdShrinkerBody::Sub64(_) => 3,
            StdShrinkerBody::Mod32(_) => 4,
            StdShrinkerBody::Div32(_) => 5,
            StdShrinkerBody::Sub32(_) => 6,
            StdShrinkerBody::Mod8(_) => 7,
            StdShrinkerBody::Div8(_) => 8,
            StdShrinkerBody::Sub8(_) => 9,
        }
    }
}

/// Cycles through its strategies: zeroing blocks, then taking 64-bit words
/// modulo the size, dividing them and lowering them, then the same on 32-bit
/// words and on bytes. A strategy that can make no step hands over to the
/// next; after four rounds the last strategy keeps the word.
#[derive(Debug)]
pub struct StdShrinker {
    body: StdShrinkerBody,
    pass: u8,
}

impl Shrinker for StdShrinker {
    fn fresh() -> (r: StdShrinker) {
        StdShrinker { body: StdShrinkerBody::Zero(BlockShrinker::fresh()), pass: 0 }
    }

    fn use_shrinker(&mut self, size: usize, pool: &mut Vec<u8>, from: usize, to: usize) -> (r:
        bool) {
        loop
            invariant
                size > 0,
                from <= to <= pool@.len(),
                pool@ == old(pool)@,
            decreases (if self.pass >= 4 {
                0
            } else {
                4 - self.pass
            }) * 10 + 9 - self.body.ordinal(),
        {
            let last_round = self.pass >= 4;
            let ghost entry = self.body.ordinal();
            let stepped = match &mut self.body {
                StdShrinkerBody::Zero(s) => s.use_shrinker(size, pool, from, to),
                StdShrinkerBody::Mod64(s) => s.use_shrinker(size, pool, from, to),
                StdShrinkerBody::Div64(s) => s.use_shrinker(size, pool, from, to),
                StdShrinkerBody::Sub64(s) => s.use_shrinker(size, pool, from, to),
                StdShrinkerBody::Mod32(s) => s.use_shrinker(size, pool, from, to),
                StdShrinkerBody::Div32(s) => s.use_shrinker(size, pool, from, to),
                StdShrinkerBody::Sub32(s) => s.use_shrinker(size, pool, from, to),
                StdShrinkerBody::Mod8(s) => s.use_shrinker(size, pool, from, to),
                StdShrinkerBody::Div8(s) => s.use_shrinker(size, pool, from, to),
                StdShrinkerBody::Sub8(s) => {
                    if last_round {
                        return s.use_shrinker(size, pool, from, to);
                    }
                    s.use_shrinker(size, pool, from, to)
                },
            };
            if stepped {
                return true;
            }
            let ghost before = self.body.ordinal();
            let ghost pass_before = self.pass;
            let (next, round_done) = match &self.body {
                StdShrinkerBody::Zero(_) => (StdShrinkerBody::Mod64(BlockShrinker::fresh()), false),
                StdShrinkerBody::Mod64(_) => (StdShrinkerBody::Div64(DivShrinker::fresh()), false),
                StdShrinkerBody::Div64(_) => (StdShrinkerBody::Sub64(SubShrinker::fresh()), false),
                StdShrinkerBody::Sub64(_) => (StdShrinkerBody::Mod32(BlockShrinker::fresh()), false),
                StdShrinkerBody::Mod32(_) => (StdShrinkerBody::Div32(DivShrinker::fresh()), false),
                StdShrinkerBody::Div32(_) => (StdShrinkerBody::Sub32(SubShrinker::fresh()), false),
                StdShrinkerBody::Sub32(_) => (StdShrinkerBody::Mod8(BlockShrinker::fresh()), false),
                StdShrinkerBody::Mod8(_) => (StdShrinkerBody::Div8(DivShrinker::fresh()), false),
                StdShrinkerBody::Div8(_) => (StdShrinkerBody::Sub8(SubShrinker::fresh()), false),
                StdShrinkerBody::Sub8(_) => (StdShrinkerBody::Zero(BlockShrinker::fresh()), true),
            };
            if round_done {
                assert(!last_round);
                self.pass = self.pass + 1;
            }
            assert(next.ordinal() == if before == 9 {
                0
            } else {
                before + 1
            });
            self.body = next;
        }
    }
}


} // verus!
