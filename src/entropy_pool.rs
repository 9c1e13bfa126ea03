//! A pool of random bytes that hands out integers and byte runs in order,
//! and can be mutated in place to shrink what it will hand out next time.
use vstd::prelude::*;

use rand::rngs::SmallRng;
use rand::RngCore;

use crate::shrink::read;

verus! {

/// Relies on rand_core's `RngCore::fill_bytes`: the bytes of `buf` in
/// `from..to` are overwritten with random ones and the others stay.
#[verifier::external_body]
fn rng_fill(rng: &mut SmallRng, buf: &mut Vec<u8>, from: usize, to: usize)
    requires
        from <= to <= old(buf)@.len(),
    ensures
        final(buf)@.len() == old(buf)@.len(),
        forall|k: int|
            0 <= k < old(buf)@.len() && !(from <= k < to) ==> #[trigger] final(buf)@[k]
                == old(buf)@[k],
{
    rng.fill_bytes(&mut buf[from..to])
}

/// The number whose little-endian bytes are `b`.
pub open spec fn le_value(b: Seq<u8>) -> nat
    decreases b.len(),
{
    if b.len() == 0 {
        0
    } else {
        b[0] as nat + 256 * le_value(b.subrange(1, b.len() as int))
    }
}

/// Random bytes `v`, of which the first `i` have been handed out.
pub struct EntropyPool {
    pub rng: SmallRng,
    pub v: Vec<u8>,
    pub i: usize,
}

impl EntropyPool {
    /// Whether the read position lies within the bytes.
    pub open spec fn wf(&self) -> bool {
        self.i <= self.v@.len()
    }

    /// An empty pool that draws its bytes from `rng`, with room reserved
    /// for `4 * size` of them.
    pub fn new(rng: SmallRng, size: usize) -> (r: EntropyPool)
        requires
            size <= usize::MAX / 4,
        ensures
            r.wf(),
            r.v@.len() == 0,
            r.i == 0,
    {
        EntropyPool { rng, v: Vec::with_capacity(4 * size), i: 0 }
    }

    /// Draws fresh bytes for those handed out so far, and starts handing
    /// out from the beginning again.
    pub fn randomize(&mut self)
        requires
            old(self).wf(),
        ensures
            final(self).wf(),
            final(self).i == 0,
            final(self).v@.len() == old(self).v@.len(),
            forall|k: int|
                old(self).i <= k < old(self).v@.len() ==> #[trigger] final(self).v@[k] == old(
                    self,
                ).v@[k],
    {
        let end = self.i;
        rng_fill(&mut self.rng, &mut self.v, 0, end);
        self.i = 0;
    }

    /// Makes sure that `n` bytes lie after the read position, drawing new
    /// ones if needed; the bytes before the read position stay.
    fn reserve(&mut self, n: usize)
        requires
            old(self).wf(),
            old(self).i + n <= usize::MAX,
            old(self).v@.len() <= usize::MAX / 2,
            old(self).i + n <= usize::MAX / 2,
        ensures
            final(self).wf(),
            final(self).i == old(self).i,
            final(self).v@.len() >= old(self).i + n,
            final(self).v@.len() <= old(self).v@.len() + old(self).i + n,
            forall|k: int| 0 <= k < old(self).i ==> #[trigger] final(self).v@[k] == old(self).v@[k],
    {
        let j = self.i + n;
        let l = self.v.len();
        if l < j {
            // Grow exponentially so that the generator is called seldom.
            let mut added: usize = 0;
            while added < j
                invariant
                    added <= j,
                    l < j,
                    l == old(self).v@.len(),
                    self.i == old(self).i,
                    self.i <= l,
                    j <= usize::MAX / 2,
                    l <= usize::MAX / 2,
                    self.v@.len() == l + added,
                    forall|k: int| 0 <= k < l ==> #[trigger] self.v@[k] == old(self).v@[k],
                decreases j - added,
            {
                self.v.push(0);
                added += 1;
            }
            let start = self.i;
            let end = self.v.len();
            rng_fill(&mut self.rng, &mut self.v, start, end);
        }
    }

    /// The next four bytes, read as a little-endian number.
    pub fn next_u32(&mut self) -> (r: u32)
        requires
            old(self).wf(),
            old(self).v@.len() <= usize::MAX / 4,
        ensures
            final(self).wf(),
            final(self).i == old(self).i + 4,
            r == le_value(final(self).v@.subrange(old(self).i as int, old(self).i + 4)),
            forall|k: int| 0 <= k < old(self).i ==> #[trigger] final(self).v@[k] == old(self).v@[k],
    {
        self.reserve(4);
        let i = self.i;
        let b0 = self.v[i] as u32;
        let b1 = self.v[i + 1] as u32;
        let b2 = self.v[i + 2] as u32;
        let b3 = self.v[i + 3] as u32;
        let r = b0 + 256 * (b1 + 256 * (b2 + 256 * b3));
        proof {
            let s = self.v@.subrange(i as int, i + 4);
            reveal_with_fuel(le_value, 5);
            assert(s.subrange(1, 4) =~= seq![s[1], s[2], s[3]]);
            assert(s.subrange(1, 4).subrange(1, 3) =~= seq![s[2], s[3]]);
            assert(s.subrange(1, 4).subrange(1, 3).subrange(1, 2) =~= seq![s[3]]);
            assert(s.subrange(1, 4).subrange(1, 3).subrange(1, 2).subrange(1, 1) =~= Seq::<
                u8,
            >::empty());
        }
        self.i = i + 4;
        r
    }

    /// The next eight bytes, read as a little-endian number.
    pub fn next_u64(&mut self) -> (r: u64)
        requires
            old(self).wf(),
            old(self).v@.len() <= usize::MAX / 4,
        ensures
            final(self).wf(),
            final(self).i == old(self).i + 8,
            r == le_value(final(self).v@.subrange(old(self).i as int, old(self).i + 8)),
            forall|k: int| 0 <= k < old(self).i ==> #[trigger] final(self).v@[k] == old(self).v@[k],
    {
        self.reserve(8);
        let i = self.i;
        let end = self.v.len();
        let r = read(&self.v, i, end, 8).unwrap();
        self.i = i + 8;
        r
    }

    /// Overwrites `dest` with the next `dest.len()` bytes.
    pub fn fill_bytes(&mut self, dest: &mut Vec<u8>)
        requires
            old(self).wf(),
            old(self).v@.len() <= usize::MAX / 4,
            old(dest)@.len() <= usize::MAX / 4,
        ensures
            final(self).wf(),
            final(self).i == old(self).i + old(dest)@.len(),
            final(dest)@ == final(self).v@.subrange(old(self).i as int, final(self).i as int),
            forall|k: int| 0 <= k < old(self).i ==> #[trigger] final(self).v@[k] == old(self).v@[k],
    {
        let l = dest.len();
        self.reserve(l);
        let i = self.i;
        let mut k: usize = 0;
        while k < l
            invariant
                k <= l,
                l == dest@.len(),
                i + l <= self.v@.len(),
                i + l <= usize::MAX / 2,
                forall|q: int| 0 <= q < k ==> #[trigger] dest@[q] == self.v@[i + q],
            decreases l - k,
        {
            let b = self.v[i + k];
            dest.set(k, b);
            k += 1;
        }
        assert(dest@ =~= self.v@.subrange(i as int, i + l));
        self.i = i + l;
    }
}

} // verus!
