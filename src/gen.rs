//! The source of randomness handed to every generator, with its size.
use vstd::prelude::*;

use rand::rngs::SmallRng;
use rand::seq::SliceRandom;
use rand::{Rng, SeedableRng};

verus! {

#[verifier::external_type_specification]
#[verifier::external_body]
pub struct ExSmallRng(rand::rngs::SmallRng);

/// Relies on rand_core's `SeedableRng::from_rng` over rand's `OsRng`: a
/// small generator seeded from the operating system, or `None` when the
/// operating system cannot provide the seed.
#[verifier::external_body]
fn rng_from_os() -> Option<SmallRng> {
    SmallRng::from_rng(rand::rngs::OsRng).ok()
}

/// Relies on rand_core's `SeedableRng::seed_from_u64`: a small generator
/// seeded from `seed`.
#[verifier::external_body]
fn rng_from_seed(seed: u64) -> SmallRng {
    SmallRng::seed_from_u64(seed)
}

/// Relies on rand's `Rng::gen` with the `Standard` distribution: any value of
/// the type may come back.
#[verifier::external_body]
pub(crate) fn rng_draw<T>(rng: &mut SmallRng) -> T
    where rand::distributions::Standard: rand::distributions::Distribution<T>,
{
    rng.gen::<T>()
}

/// Relies on rand's `Rng::gen_range` over `lo..hi`: a value in that range
/// (it panics on an empty range, which `requires` leaves out).
#[verifier::external_body]
fn rng_range(rng: &mut SmallRng, lo: u64, hi: u64) -> (r: u64)
    requires
        lo < hi,
    ensures
        lo <= r < hi,
{
    rng.gen_range(lo..hi)
}

/// Relies on rand's `SliceRandom::choose`: `None` on an empty slice, and
/// otherwise one of its elements.
#[verifier::external_body]
fn rng_choose<'a, T>(rng: &mut SmallRng, slice: &'a [T]) -> (r: Option<&'a T>)
    ensures
        match r {
            Some(x) => slice@.contains(*x),
            None => slice@.len() == 0,
        },
{
    slice.choose(rng)
}

/// The seed used when the operating system cannot provide one.
pub const FALLBACK_SEED: u64 = 0x5eed_0f_c0ffee;

/// A pseudo-random generator together with a size that bounds how large
/// generated values are (the length of a vector, for one).
pub struct Gen {
    pub(crate) rng: SmallRng,
    pub(crate) size: usize,
}

impl Gen {
    /// The size this generator was configured with.
    pub closed spec fn size_spec(&self) -> usize {
        self.size
    }

    /// A generator with the given size, seeded from the operating system, or
    /// from a fixed seed when the operating system cannot provide one.
    pub fn new(size: usize) -> (g: Gen)
        ensures
            g.size_spec() == size,
    {
        let rng = match rng_from_os() {
            Some(rng) => rng,
            None => rng_from_seed(FALLBACK_SEED),
        };
        Gen { rng, size }
    }

    /// The size configured with this generator.
    pub fn size(&self) -> (r: usize)
        ensures
            r == self.size_spec(),
    {
        self.size
    }

    /// One element of `slice` chosen at random, or `None` if it is empty.
    pub fn pick<'a, T>(&mut self, slice: &'a [T]) -> (r: Option<&'a T>)
        ensures
            final(self).size_spec() == old(self).size_spec(),
            match r {
                Some(x) => slice@.contains(*x),
                None => slice@.len() == 0,
            },
    {
        rng_choose(&mut self.rng, slice)
    }

    /// A value drawn uniformly from `lo..hi`.
    pub(crate) fn gen_range(&mut self, lo: u64, hi: u64) -> (r: u64)
        requires
            lo < hi,
        ensures
            lo <= r < hi,
            final(self).size_spec() == old(self).size_spec(),
    {
        rng_range(&mut self.rng, lo, hi)
    }

    /// A value drawn at random from the whole of its type.
    pub(crate) fn draw<T>(&mut self) -> (r: T)
        where rand::distributions::Standard: rand::distributions::Distribution<T>,
        ensures
            final(self).size_spec() == old(self).size_spec(),
    {
        rng_draw::<T>(&mut self.rng)
    }

    /// A boolean drawn at random.
    pub(crate) fn gen_bool(&mut self) -> (r: bool)
        ensures
            final(self).size_spec() == old(self).size_spec(),
    {
        rng_draw::<bool>(&mut self.rng)
    }
}

} // verus!
