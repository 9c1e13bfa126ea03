//! Property-based testing: random generation of values, shrinking of
//! counterexamples, and a runner that searches for a minimal failing input.
//!
//! Every generated type implements [`Arbitrary`], whose contract states the
//! exact list of shrink candidates of a value and proves that each of them
//! weighs less than the value, so that the shrink search always ends.
use vstd::prelude::*;

pub mod arbitrary;
pub mod entropy_pool;
pub mod gen;
pub mod laws;
pub mod numbers;
pub mod ranges;
pub mod sequences;
pub mod shrink;
pub mod tester;
pub mod text;
pub mod tuples;

pub use crate::arbitrary::{empty_shrinker, single_shrinker, Arbitrary};
pub use crate::entropy_pool::EntropyPool;
pub use crate::gen::Gen;
pub use crate::shrink::{
    BlockShrinker, DivShrinker, ModuloSize, Shrinker, StdShrinker, StdShrinkerBody, SubShrinker,
    ZeroOut,
};
pub use crate::tester::{
    quickcheck, run_property, Arguments, QuickCheck, Status, TestResult, Testable,
};

verus! {

} // verus!
