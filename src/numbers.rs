//! Generation and shrinking of the integer types.
//!
//! An integer shrinks toward zero: first zero itself, then (for a negative
//! value that is not the type's minimum) its absolute value, then the value
//! minus a distance that halves at each step, for as long as that distance is
//! not zero.
use vstd::prelude::*;

use crate::arbitrary::{lemma_map_push, lemma_push_then_rest, Arbitrary};
use crate::gen::Gen;

verus! {

/// Half of `i`, rounded toward zero as integer division does.
pub open spec fn half(i: int) -> int {
    if i >= 0 {
        i / 2
    } else {
        -((-i) / 2)
    }
}

/// The absolute value of `i`.
pub open spec fn abs(i: int) -> nat {
    if i >= 0 {
        i as nat
    } else {
        (-i) as nat
    }
}

/// `x - i`, `x - half(i)`, `x - half(half(i))`, ... for as long as the
/// distance is not zero.
pub open spec fn halvings(x: int, i: int) -> Seq<int>
    decreases abs(i),
{
    if i == 0 {
        seq![]
    } else {
        seq![x - i] + halvings(x, half(i))
    }
}

/// The shrink candidates of an unsigned integer `x`.
pub open spec fn unsigned_shrinks(x: int) -> Seq<int> {
    if x == 0 {
        seq![]
    } else {
        seq![0] + halvings(x, half(x))
    }
}

/// The shrink candidates of a signed integer `x` of a type whose least value
/// is `min`.
pub open spec fn signed_shrinks(x: int, min: int) -> Seq<int> {
    if x == 0 {
        seq![]
    } else if half(x) < 0 && x != min {
        seq![0, -x] + halvings(x, half(x))
    } else {
        seq![0] + halvings(x, half(x))
    }
}

/// The weight of a signed integer: a negative value weighs a little more
/// than its absolute value.
pub open spec fn signed_weight(x: int) -> nat {
    if x >= 0 {
        (2 * x) as nat
    } else {
        (-2 * x + 1) as nat
    }
}

/// Every value in `halvings(x, i)` lies strictly between zero (included) and
/// `x`, when `i` lies between zero and `x`.
pub proof fn lemma_halvings_toward_zero(x: int, i: int)
    requires
        (x > 0 && 0 <= i <= x) || (x < 0 && x <= i <= 0),
    ensures
        forall|k: int|
            0 <= k < halvings(x, i).len() ==> {
                let c = #[trigger] halvings(x, i)[k];
                &&& x > 0 ==> 0 <= c < x
                &&& x < 0 ==> x < c <= 0
            },
    decreases abs(i),
{
    if i != 0 {
        lemma_halvings_toward_zero(x, half(i));
        assert forall|k: int| 0 <= k < halvings(x, i).len() implies {
            let c = #[trigger] halvings(x, i)[k];
            &&& x > 0 ==> 0 <= c < x
            &&& x < 0 ==> x < c <= 0
        } by {
            if k > 0 {
                assert(halvings(x, i)[k] == halvings(x, half(i))[k - 1]);
            }
        }
    }
}

/// The unsigned candidates are all below `x`.
pub proof fn lemma_unsigned_shrinks_below(x: int)
    requires
        x >= 0,
    ensures
        forall|k: int|
            0 <= k < unsigned_shrinks(x).len() ==> 0 <= #[trigger] unsigned_shrinks(x)[k] < x,
{
    if x != 0 {
        lemma_halvings_toward_zero(x, half(x));
        assert forall|k: int| 0 <= k < unsigned_shrinks(x).len() implies 0
            <= #[trigger] unsigned_shrinks(x)[k] < x by {
            if k > 0 {
                assert(unsigned_shrinks(x)[k] == halvings(x, half(x))[k - 1]);
            }
        }
    }
}

/// The signed candidates all weigh less than `x`; all but the absolute value
/// are also closer to zero.
pub proof fn lemma_signed_shrinks_lighter(x: int, min: int)
    ensures
        forall|k: int|
            0 <= k < signed_shrinks(x, min).len() ==> {
                let c = #[trigger] signed_shrinks(x, min)[k];
                &&& signed_weight(c) < signed_weight(x)
                &&& abs(c) < abs(x) || (x < 0 && c == -x)
            },
{
    if x != 0 {
        lemma_halvings_toward_zero(x, half(x));
        let h = halvings(x, half(x));
        let extra: int = if half(x) < 0 && x != min {
            1
        } else {
            0
        };
        assert forall|k: int| 0 <= k < signed_shrinks(x, min).len() implies {
            let c = #[trigger] signed_shrinks(x, min)[k];
            &&& signed_weight(c) < signed_weight(x)
            &&& abs(c) < abs(x) || (x < 0 && c == -x)
        } by {
            if k > extra {
                assert(signed_shrinks(x, min)[k] == h[k - 1 - extra]);
            }
        }
    }
}

/// The state of the halving loop after it has pushed some candidates.
proof fn lemma_halving_step(done: Seq<int>, x: int, i: int)
    requires
        i != 0,
    ensures
        done.push(x - i) + halvings(x, half(i)) == done + halvings(x, i),
{
    lemma_push_then_rest(done, x - i, halvings(x, half(i)));
}

/// Whether `p` is a problem value of an unsigned type whose largest value
/// is `max`: zero, one or `max`.
pub open spec fn unsigned_problem(p: int, max: int) -> bool {
    p == 0 || p == 1 || p == max
}

/// Whether `p` is a problem value of a signed type with bounds `min` and
/// `max`: `min`, zero or `max`.
pub open spec fn signed_problem(p: int, min: int, max: int) -> bool {
    p == min || p == 0 || p == max
}

/// The `u8` that a roll, a picked problem value and a uniform draw stand
/// for: the problem value on a roll of zero, the draw otherwise.
pub fn u8_of_draw(roll: u64, picked: u8, v: u8) -> (r: u8)
    requires
        unsigned_problem(picked as int, u8::MAX as int),
    ensures
        r == (if roll == 0 {
            picked
        } else {
            v
        }),
        roll == 0 ==> unsigned_problem(r as int, u8::MAX as int),
{
    if roll == 0 {
        picked
    } else {
        v
    }
}

/// The `u16` that a roll, a picked problem value and a uniform draw stand
/// for: the problem value on a roll of zero, the draw otherwise.
pub fn u16_of_draw(roll: u64, picked: u16, v: u16) -> (r: u16)
    requires
        unsigned_problem(picked as int, u16::MAX as int),
    ensures
        r == (if roll == 0 {
            picked
        } else {
            v
        }),
        roll == 0 ==> unsigned_problem(r as int, u16::MAX as int),
{
    if roll == 0 {
        picked
    } else {
        v
    }
}

/// The `u32` that a roll, a picked problem value and a uniform draw stand
/// for: the problem value on a roll of zero, the draw otherwise.
pub fn u32_of_draw(roll: u64, picked: u32, v: u32) -> (r: u32)
    requires
        unsigned_problem(picked as int, u32::MAX as int),
    ensures
        r == (if roll == 0 {
            picked
        } else {
            v
        }),
        roll == 0 ==> unsigned_problem(r as int, u32::MAX as int),
{
    if roll == 0 {
        picked
    } else {
        v
    }
}

/// The `u64` that a roll, a picked problem value and a uniform draw stand
/// for: the problem value on a roll of zero, the draw otherwise.
pub fn u64_of_draw(roll: u64, picked: u64, v: u64) -> (r: u64)
    requires
        unsigned_problem(picked as int, u64::MAX as int),
    ensures
        r == (if roll == 0 {
            picked
        } else {
            v
        }),
        roll == 0 ==> unsigned_problem(r as int, u64::MAX as int),
{
    if roll == 0 {
        picked
    } else {
        v
    }
}

/// The `u128` that a roll, a picked problem value and a uniform draw stand
/// for: the problem value on a roll of zero, the draw otherwise.
pub fn u128_of_draw(roll: u64, picked: u128, v: u128) -> (r: u128)
    requires
        unsigned_problem(picked as int, u128::MAX as int),
    ensures
        r == (if roll == 0 {
            picked
        } else {
            v
        }),
        roll == 0 ==> unsigned_problem(r as int, u128::MAX as int),
{
    if roll == 0 {
        picked
    } else {
        v
    }
}

/// The `usize` that a roll, a picked problem value and a uniform draw stand
/// for: the problem value on a roll of zero, the draw otherwise.
pub fn usize_of_draw(roll: u64, picked: usize, v: usize) -> (r: usize)
    requires
        unsigned_problem(picked as int, usize::MAX as int),
    ensures
        r == (if roll == 0 {
            picked
        } else {
            v
        }),
        roll == 0 ==> unsigned_problem(r as int, usize::MAX as int),
{
    if roll == 0 {
        picked
    } else {
        v
    }
}

/// The `i8` that a roll, a picked problem value and a uniform draw stand
/// for: the problem value on a roll of zero, the draw otherwise.
pub fn i8_of_draw(roll: u64, picked: i8, v: i8) -> (r: i8)
    requires
        signed_problem(picked as int, i8::MIN as int, i8::MAX as int),
    ensures
        r == (if roll == 0 {
            picked
        } else {
            v
        }),
        roll == 0 ==> signed_problem(r as int, i8::MIN as int, i8::MAX as int),
{
    if roll == 0 {
        picked
    } else {
        v
    }
}

/// The `i16` that a roll, a picked problem value and a uniform draw stand
/// for: the problem value on a roll of zero, the draw otherwise.
pub fn i16_of_draw(roll: u64, picked: i16, v: i16) -> (r: i16)
    requires
        signed_problem(picked as int, i16::MIN as int, i16::MAX as int),
    ensures
        r == (if roll == 0 {
            picked
        } else {
            v
        }),
        roll == 0 ==> signed_problem(r as int, i16::MIN as int, i16::MAX as int),
{
    if roll == 0 {
        picked
    } else {
        v
    }
}

/// The `i32` that a roll, a picked problem value and a uniform draw stand
/// for: the problem value on a roll of zero, the draw otherwise.
pub fn i32_of_draw(roll: u64, picked: i32, v: i32) -> (r: i32)
    requires
        signed_problem(picked as int, i32::MIN as int, i32::MAX as int),
    ensures
        r == (if roll == 0 {
            picked
        } else {
            v
        }),
        roll == 0 ==> signed_problem(r as int, i32::MIN as int, i32::MAX as int),
{
    if roll == 0 {
        picked
    } else {
        v
    }
}

/// The `i64` that a roll, a picked problem value and a uniform draw stand
/// for: the problem value on a roll of zero, the draw otherwise.
pub fn i64_of_draw(roll: u64, picked: i64, v: i64) -> (r: i64)
    requires
        signed_problem(picked as int, i64::MIN as int, i64::MAX as int),
    ensures
        r == (if roll == 0 {
            picked
        } else {
            v
        }),
        roll == 0 ==> signed_problem(r as int, i64::MIN as int, i64::MAX as int),
{
    if roll == 0 {
        picked
    } else {
        v
    }
}

/// The `i128` that a roll, a picked problem value and a uniform draw stand
/// for: the problem value on a roll of zero, the draw otherwise.
pub fn i128_of_draw(roll: u64, picked: i128, v: i128) -> (r: i128)
    requires
        signed_problem(picked as int, i128::MIN as int, i128::MAX as int),
    ensures
        r == (if roll == 0 {
            picked
        } else {
            v
        }),
        roll == 0 ==> signed_problem(r as int, i128::MIN as int, i128::MAX as int),
{
    if roll == 0 {
        picked
    } else {
        v
    }
}

/// The `isize` that a roll, a picked problem value and a uniform draw stand
/// for: the problem value on a roll of zero, the draw otherwise.
pub fn isize_of_draw(roll: u64, picked: isize, v: isize) -> (r: isize)
    requires
        signed_problem(picked as int, isize::MIN as int, isize::MAX as int),
    ensures
        r == (if roll == 0 {
            picked
        } else {
            v
        }),
        roll == 0 ==> signed_problem(r as int, isize::MIN as int, isize::MAX as int),
{
    if roll == 0 {
        picked
    } else {
        v
    }
}

// -------------------------------------------------------------------------
// Unsigned types
// -------------------------------------------------------------------------

impl Arbitrary for u8 {
    type Model = int;

    open spec fn model(&self) -> int {
        *self as int
    }

    open spec fn shrink_spec(m: int) -> Seq<int> {
        unsigned_shrinks(m)
    }

    open spec fn weight(m: int) -> nat {
        abs(m)
    }

    open spec fn within(m: int, size: nat) -> bool {
        true
    }

    proof fn lemma_shrink_lighter(m: int) {
        if m >= 0 {
            lemma_unsigned_shrinks_below(m);
        } else {
            assert(unsigned_shrinks(m) == seq![0] + halvings(m, half(m)));
            lemma_halvings_toward_zero(m, half(m));
            assert forall|k: int| 0 <= k < unsigned_shrinks(m).len() implies abs(
                #[trigger] unsigned_shrinks(m)[k],
            ) < abs(m) by {
                if k > 0 {
                    assert(unsigned_shrinks(m)[k] == halvings(m, half(m))[k - 1]);
                }
            }
        }
    }

    fn arbitrary(g: &mut Gen) -> (r: u8) {
        let roll = g.gen_range(0, 10);
        if roll == 0 {
            let problems: [u8; 3] = [0, 1, u8::MAX];
            let picked = *g.pick(&problems).unwrap();
            u8_of_draw(roll, picked, 0)
        } else {
            let v = g.draw::<u8>();
            u8_of_draw(roll, 0, v)
        }
    }

    fn shrink(&self) -> (r: Vec<u8>) {
        let x = *self;
        let mut r: Vec<u8> = Vec::new();
        if x == 0 {
            assert(r@.map_values(|v: u8| v as int) =~= Self::shrink_spec(self.model()));
            return r;
        }
        r.push(0);
        let mut i: u8 = x / 2;
        assert(r@.map_values(|v: u8| v as int) + halvings(x as int, i as int) =~= unsigned_shrinks(x as int));
        while i != 0
            invariant
                i <= x,
                r@.map_values(|v: u8| v as int) + halvings(x as int, i as int) == unsigned_shrinks(x as int),
            decreases i,
        {
            proof {
                lemma_halving_step(r@.map_values(|v: u8| v as int), x as int, i as int);
            }
            let ghost prev = r@;
            r.push(x - i);
            proof {
                lemma_map_push(prev, (x - i) as u8, |v: u8| v as int);
            }
            i = i / 2;
        }
        assert(r@.map_values(|v: u8| v as int) =~= r@.map_values(|v: u8| v as int) + halvings(x as int, 0));
        r
    }

    fn duplicate(&self) -> (r: u8) {
        *self
    }
}

impl Arbitrary for u16 {
    type Model = int;

    open spec fn model(&self) -> int {
        *self as int
    }

    open spec fn shrink_spec(m: int) -> Seq<int> {
        unsigned_shrinks(m)
    }

    open spec fn weight(m: int) -> nat {
        abs(m)
    }

    open spec fn within(m: int, size: nat) -> bool {
        true
    }

    proof fn lemma_shrink_lighter(m: int) {
        if m >= 0 {
            lemma_unsigned_shrinks_below(m);
        } else {
            assert(unsigned_shrinks(m) == seq![0] + halvings(m, half(m)));
            lemma_halvings_toward_zero(m, half(m));
            assert forall|k: int| 0 <= k < unsigned_shrinks(m).len() implies abs(
                #[trigger] unsigned_shrinks(m)[k],
            ) < abs(m) by {
                if k > 0 {
                    assert(unsigned_shrinks(m)[k] == halvings(m, half(m))[k - 1]);
                }
            }
        }
    }

    fn arbitrary(g: &mut Gen) -> (r: u16) {
        let roll = g.gen_range(0, 10);
        if roll == 0 {
            let problems: [u16; 3] = [0, 1, u16::MAX];
            let picked = *g.pick(&problems).unwrap();
            u16_of_draw(roll, picked, 0)
        } else {
            let v = g.draw::<u16>();
            u16_of_draw(roll, 0, v)
        }
    }

    fn shrink(&self) -> (r: Vec<u16>) {
        let x = *self;
        let mut r: Vec<u16> = Vec::new();
        if x == 0 {
            assert(r@.map_values(|v: u16| v as int) =~= Self::shrink_spec(self.model()));
            return r;
        }
        r.push(0);
        let mut i: u16 = x / 2;
        assert(r@.map_values(|v: u16| v as int) + halvings(x as int, i as int) =~= unsigned_shrinks(x as int));
        while i != 0
            invariant
                i <= x,
                r@.map_values(|v: u16| v as int) + halvings(x as int, i as int) == unsigned_shrinks(x as int),
            decreases i,
        {
            proof {
                lemma_halving_step(r@.map_values(|v: u16| v as int), x as int, i as int);
            }
            let ghost prev = r@;
            r.push(x - i);
            proof {
                lemma_map_push(prev, (x - i) as u16, |v: u16| v as int);
            }
            i = i / 2;
        }
        assert(r@.map_values(|v: u16| v as int) =~= r@.map_values(|v: u16| v as int) + halvings(x as int, 0));
        r
    }

    fn duplicate(&self) -> (r: u16) {
        *self
    }
}

impl Arbitrary for u32 {
    type Model = int;

    open spec fn model(&self) -> int {
        *self as int
    }

    open spec fn shrink_spec(m: int) -> Seq<int> {
        unsigned_shrinks(m)
    }

    open spec fn weight(m: int) -> nat {
        abs(m)
    }

    open spec fn within(m: int, size: nat) -> bool {
        true
    }

    proof fn lemma_shrink_lighter(m: int) {
        if m >= 0 {
            lemma_unsigned_shrinks_below(m);
        } else {
            assert(unsigned_shrinks(m) == seq![0] + halvings(m, half(m)));
            lemma_halvings_toward_zero(m, half(m));
            assert forall|k: int| 0 <= k < unsigned_shrinks(m).len() implies abs(
                #[trigger] unsigned_shrinks(m)[k],
            ) < abs(m) by {
                if k > 0 {
                    assert(unsigned_shrinks(m)[k] == halvings(m, half(m))[k - 1]);
                }
            }
        }
    }

    fn arbitrary(g: &mut Gen) -> (r: u32) {
        let roll = g.gen_range(0, 10);
        if roll == 0 {
            let problems: [u32; 3] = [0, 1, u32::MAX];
            let picked = *g.pick(&problems).unwrap();
            u32_of_draw(roll, picked, 0)
        } else {
            let v = g.draw::<u32>();
            u32_of_draw(roll, 0, v)
        }
    }

    fn shrink(&self) -> (r: Vec<u32>) {
        let x = *self;
        let mut r: Vec<u32> = Vec::new();
        if x == 0 {
            assert(r@.map_values(|v: u32| v as int) =~= Self::shrink_spec(self.model()));
            return r;
        }
        r.push(0);
        let mut i: u32 = x / 2;
        assert(r@.map_values(|v: u32| v as int) + halvings(x as int, i as int) =~= unsigned_shrinks(x as int));
        while i != 0
            invariant
                i <= x,
                r@.map_values(|v: u32| v as int) + halvings(x as int, i as int) == unsigned_shrinks(x as int),
            decreases i,
        {
            proof {
                lemma_halving_step(r@.map_values(|v: u32| v as int), x as int, i as int);
            }
            let ghost prev = r@;
            r.push(x - i);
            proof {
                lemma_map_push(prev, (x - i) as u32, |v: u32| v as int);
            }
            i = i / 2;
        }
        assert(r@.map_values(|v: u32| v as int) =~= r@.map_values(|v: u32| v as int) + halvings(x as int, 0));
        r
    }

    fn duplicate(&self) -> (r: u32) {
        *self
    }
}

impl Arbitrary for u64 {
    type Model = int;

    open spec fn model(&self) -> int {
        *self as int
    }

    open spec fn shrink_spec(m: int) -> Seq<int> {
        unsigned_shrinks(m)
    }

    open spec fn weight(m: int) -> nat {
        abs(m)
    }

    open spec fn within(m: int, size: nat) -> bool {
        true
    }

    proof fn lemma_shrink_lighter(m: int) {
        if m >= 0 {
            lemma_unsigned_shrinks_below(m);
        } else {
            assert(unsigned_shrinks(m) == seq![0] + halvings(m, half(m)));
            lemma_halvings_toward_zero(m, half(m));
            assert forall|k: int| 0 <= k < unsigned_shrinks(m).len() implies abs(
                #[trigger] unsigned_shrinks(m)[k],
            ) < abs(m) by {
                if k > 0 {
                    assert(unsigned_shrinks(m)[k] == halvings(m, half(m))[k - 1]);
                }
            }
        }
    }

    fn arbitrary(g: &mut Gen) -> (r: u64) {
        let roll = g.gen_range(0, 10);
        if roll == 0 {
            let problems: [u64; 3] = [0, 1, u64::MAX];
            let picked = *g.pick(&problems).unwrap();
            u64_of_draw(roll, picked, 0)
        } else {
            let v = g.draw::<u64>();
            u64_of_draw(roll, 0, v)
        }
    }

    fn shrink(&self) -> (r: Vec<u64>) {
        let x = *self;
        let mut r: Vec<u64> = Vec::new();
        if x == 0 {
            assert(r@.map_values(|v: u64| v as int) =~= Self::shrink_spec(self.model()));
            return r;
        }
        r.push(0);
        let mut i: u64 = x / 2;
        assert(r@.map_values(|v: u64| v as int) + halvings(x as int, i as int) =~= unsigned_shrinks(x as int));
        while i != 0
            invariant
                i <= x,
                r@.map_values(|v: u64| v as int) + halvings(x as int, i as int) == unsigned_shrinks(x as int),
            decreases i,
        {
            proof {
                lemma_halving_step(r@.map_values(|v: u64| v as int), x as int, i as int);
            }
            let ghost prev = r@;
            r.push(x - i);
            proof {
                lemma_map_push(prev, (x - i) as u64, |v: u64| v as int);
            }
            i = i / 2;
        }
        assert(r@.map_values(|v: u64| v as int) =~= r@.map_values(|v: u64| v as int) + halvings(x as int, 0));
        r
    }

    fn duplicate(&self) -> (r: u64) {
        *self
    }
}

impl Arbitrary for u128 {
    type Model = int;

    open spec fn model(&self) -> int {
        *self as int
    }

    open spec fn shrink_spec(m: int) -> Seq<int> {
        unsigned_shrinks(m)
    }

    open spec fn weight(m: int) -> nat {
        abs(m)
    }

    open spec fn within(m: int, size: nat) -> bool {
        true
    }

    proof fn lemma_shrink_lighter(m: int) {
        if m >= 0 {
            lemma_unsigned_shrinks_below(m);
        } else {
            assert(unsigned_shrinks(m) == seq![0] + halvings(m, half(m)));
            lemma_halvings_toward_zero(m, half(m));
            assert forall|k: int| 0 <= k < unsigned_shrinks(m).len() implies abs(
                #[trigger] unsigned_shrinks(m)[k],
            ) < abs(m) by {
                if k > 0 {
                    assert(unsigned_shrinks(m)[k] == halvings(m, half(m))[k - 1]);
                }
            }
        }
    }

    fn arbitrary(g: &mut Gen) -> (r: u128) {
        let roll = g.gen_range(0, 10);
        if roll == 0 {
            let problems: [u128; 3] = [0, 1, u128::MAX];
            let picked = *g.pick(&problems).unwrap();
            u128_of_draw(roll, picked, 0)
        } else {
            let v = g.draw::<u128>();
            u128_of_draw(roll, 0, v)
        }
    }

    fn shrink(&self) -> (r: Vec<u128>) {
        let x = *self;
        let mut r: Vec<u128> = Vec::new();
        if x == 0 {
            assert(r@.map_values(|v: u128| v as int) =~= Self::shrink_spec(self.model()));
            return r;
        }
        r.push(0);
        let mut i: u128 = x / 2;
        assert(r@.map_values(|v: u128| v as int) + halvings(x as int, i as int) =~= unsigned_shrinks(x as int));
        while i != 0
            invariant
                i <= x,
                r@.map_values(|v: u128| v as int) + halvings(x as int, i as int) == unsigned_shrinks(x as int),
            decreases i,
        {
            proof {
                lemma_halving_step(r@.map_values(|v: u128| v as int), x as int, i as int);
            }
            let ghost prev = r@;
            r.push(x - i);
            proof {
                lemma_map_push(prev, (x - i) as u128, |v: u128| v as int);
            }
            i = i / 2;
        }
        assert(r@.map_values(|v: u128| v as int) =~= r@.map_values(|v: u128| v as int) + halvings(x as int, 0));
        r
    }

    fn duplicate(&self) -> (r: u128) {
        *self
    }
}

impl Arbitrary for usize {
    type Model = int;

    open spec fn model(&self) -> int {
        *self as int
    }

    open spec fn shrink_spec(m: int) -> Seq<int> {
        unsigned_shrinks(m)
    }

    open spec fn weight(m: int) -> nat {
        abs(m)
    }

    open spec fn within(m: int, size: nat) -> bool {
        true
    }

    proof fn lemma_shrink_lighter(m: int) {
        if m >= 0 {
            lemma_unsigned_shrinks_below(m);
        } else {
            assert(unsigned_shrinks(m) == seq![0] + halvings(m, half(m)));
            lemma_halvings_toward_zero(m, half(m));
            assert forall|k: int| 0 <= k < unsigned_shrinks(m).len() implies abs(
                #[trigger] unsigned_shrinks(m)[k],
            ) < abs(m) by {
                if k > 0 {
                    assert(unsigned_shrinks(m)[k] == halvings(m, half(m))[k - 1]);
                }
            }
        }
    }

    fn arbitrary(g: &mut Gen) -> (r: usize) {
        let roll = g.gen_range(0, 10);
        if roll == 0 {
            let problems: [usize; 3] = [0, 1, usize::MAX];
            let picked = *g.pick(&problems).unwrap();
            usize_of_draw(roll, picked, 0)
        } else {
            let v = g.draw::<usize>();
            usize_of_draw(roll, 0, v)
        }
    }

    fn shrink(&self) -> (r: Vec<usize>) {
        let x = *self;
        let mut r: Vec<usize> = Vec::new();
        if x == 0 {
            assert(r@.map_values(|v: usize| v as int) =~= Self::shrink_spec(self.model()));
            return r;
        }
        r.push(0);
        let mut i: usize = x / 2;
        assert(r@.map_values(|v: usize| v as int) + halvings(x as int, i as int) =~= unsigned_shrinks(x as int));
        while i != 0
            invariant
                i <= x,
                r@.map_values(|v: usize| v as int) + halvings(x as int, i as int) == unsigned_shrinks(x as int),
            decreases i,
        {
            proof {
                lemma_halving_step(r@.map_values(|v: usize| v as int), x as int, i as int);
            }
            let ghost prev = r@;
            r.push(x - i);
            proof {
                lemma_map_push(prev, (x - i) as usize, |v: usize| v as int);
            }
            i = i / 2;
        }
        assert(r@.map_values(|v: usize| v as int) =~= r@.map_values(|v: usize| v as int) + halvings(x as int, 0));
        r
    }

    fn duplicate(&self) -> (r: usize) {
        *self
    }
}

// -------------------------------------------------------------------------
// Signed types
// -------------------------------------------------------------------------

impl Arbitrary for i8 {
    type Model = int;

    open spec fn model(&self) -> int {
        *self as int
    }

    open spec fn shrink_spec(m: int) -> Seq<int> {
        signed_shrinks(m, i8::MIN as int)
    }

    open spec fn weight(m: int) -> nat {
        signed_weight(m)
    }

    open spec fn within(m: int, size: nat) -> bool {
        true
    }

    proof fn lemma_shrink_lighter(m: int) {
        lemma_signed_shrinks_lighter(m, i8::MIN as int);
    }

    fn arbitrary(g: &mut Gen) -> (r: i8) {
        let roll = g.gen_range(0, 10);
        if roll == 0 {
            let problems: [i8; 3] = [i8::MIN, 0, i8::MAX];
            let picked = *g.pick(&problems).unwrap();
            i8_of_draw(roll, picked, 0)
        } else {
            let v = g.draw::<i8>();
            i8_of_draw(roll, 0, v)
        }
    }

    fn shrink(&self) -> (r: Vec<i8>) {
        let x = *self;
        let mut r: Vec<i8> = Vec::new();
        if x == 0 {
            assert(r@.map_values(|v: i8| v as int) =~= Self::shrink_spec(self.model()));
            return r;
        }
        r.push(0);
        let mut i: i8 = x / 2;
        if i < 0 && x != i8::MIN {
            r.push(-x);
        }
        assert(r@.map_values(|v: i8| v as int) + halvings(x as int, i as int) =~= signed_shrinks(
            x as int,
            i8::MIN as int,
        ));
        while i != 0
            invariant
                (x > 0 && 0 <= i <= x) || (x < 0 && x <= i <= 0),
                r@.map_values(|v: i8| v as int) + halvings(x as int, i as int) == signed_shrinks(
                    x as int,
                    i8::MIN as int,
                ),
            decreases abs(i as int),
        {
            proof {
                lemma_halving_step(r@.map_values(|v: i8| v as int), x as int, i as int);
            }
            let ghost prev = r@;
            r.push(x - i);
            proof {
                lemma_map_push(prev, (x - i) as i8, |v: i8| v as int);
            }
            i = i / 2;
        }
        assert(r@.map_values(|v: i8| v as int) =~= r@.map_values(|v: i8| v as int) + halvings(
            x as int,
            0,
        ));
        r
    }

    fn duplicate(&self) -> (r: i8) {
        *self
    }
}

impl Arbitrary for i16 {
    type Model = int;

    open spec fn model(&self) -> int {
        *self as int
    }

    open spec fn shrink_spec(m: int) -> Seq<int> {
        signed_shrinks(m, i16::MIN as int)
    }

    open spec fn weight(m: int) -> nat {
        signed_weight(m)
    }

    open spec fn within(m: int, size: nat) -> bool {
        true
    }

    proof fn lemma_shrink_lighter(m: int) {
        lemma_signed_shrinks_lighter(m, i16::MIN as int);
    }

    fn arbitrary(g: &mut Gen) -> (r: i16) {
        let roll = g.gen_range(0, 10);
        if roll == 0 {
            let problems: [i16; 3] = [i16::MIN, 0, i16::MAX];
            let picked = *g.pick(&problems).unwrap();
            i16_of_draw(roll, picked, 0)
        } else {
            let v = g.draw::<i16>();
            i16_of_draw(roll, 0, v)
        }
    }

    fn shrink(&self) -> (r: Vec<i16>) {
        let x = *self;
        let mut r: Vec<i16> = Vec::new();
        if x == 0 {
            assert(r@.map_values(|v: i16| v as int) =~= Self::shrink_spec(self.model()));
            return r;
        }
        r.push(0);
        let mut i: i16 = x / 2;
        if i < 0 && x != i16::MIN {
            r.push(-x);
        }
        assert(r@.map_values(|v: i16| v as int) + halvings(x as int, i as int) =~= signed_shrinks(
            x as int,
            i16::MIN as int,
        ));
        while i != 0
            invariant
                (x > 0 && 0 <= i <= x) || (x < 0 && x <= i <= 0),
                r@.map_values(|v: i16| v as int) + halvings(x as int, i as int) == signed_shrinks(
                    x as int,
                    i16::MIN as int,
                ),
            decreases abs(i as int),
        {
            proof {
                lemma_halving_step(r@.map_values(|v: i16| v as int), x as int, i as int);
            }
            let ghost prev = r@;
            r.push(x - i);
            proof {
                lemma_map_push(prev, (x - i) as i16, |v: i16| v as int);
            }
            i = i / 2;
        }
        assert(r@.map_values(|v: i16| v as int) =~= r@.map_values(|v: i16| v as int) + halvings(
            x as int,
            0,
        ));
        r
    }

    fn duplicate(&self) -> (r: i16) {
        *self
    }
}

impl Arbitrary for i32 {
    type Model = int;

    open spec fn model(&self) -> int {
        *self as int
    }

    open spec fn shrink_spec(m: int) -> Seq<int> {
        signed_shrinks(m, i32::MIN as int)
    }

    open spec fn weight(m: int) -> nat {
        signed_weight(m)
    }

    open spec fn within(m: int, size: nat) -> bool {
        true
    }

    proof fn lemma_shrink_lighter(m: int) {
        lemma_signed_shrinks_lighter(m, i32::MIN as int);
    }

    fn arbitrary(g: &mut Gen) -> (r: i32) {
        let roll = g.gen_range(0, 10);
        if roll == 0 {
            let problems: [i32; 3] = [i32::MIN, 0, i32::MAX];
            let picked = *g.pick(&problems).unwrap();
            i32_of_draw(roll, picked, 0)
        } else {
            let v = g.draw::<i32>();
            i32_of_draw(roll, 0, v)
        }
    }

    fn shrink(&self) -> (r: Vec<i32>) {
        let x = *self;
        let mut r: Vec<i32> = Vec::new();
        if x == 0 {
            assert(r@.map_values(|v: i32| v as int) =~= Self::shrink_spec(self.model()));
            return r;
        }
        r.push(0);
        let mut i: i32 = x / 2;
        if i < 0 && x != i32::MIN {
            r.push(-x);
        }
        assert(r@.map_values(|v: i32| v as int) + halvings(x as int, i as int) =~= signed_shrinks(
            x as int,
            i32::MIN as int,
        ));
        while i != 0
            invariant
                (x > 0 && 0 <= i <= x) || (x < 0 && x <= i <= 0),
                r@.map_values(|v: i32| v as int) + halvings(x as int, i as int) == signed_shrinks(
                    x as int,
                    i32::MIN as int,
                ),
            decreases abs(i as int),
        {
            proof {
                lemma_halving_step(r@.map_values(|v: i32| v as int), x as int, i as int);
            }
            let ghost prev = r@;
            r.push(x - i);
            proof {
                lemma_map_push(prev, (x - i) as i32, |v: i32| v as int);
            }
            i = i / 2;
        }
        assert(r@.map_values(|v: i32| v as int) =~= r@.map_values(|v: i32| v as int) + halvings(
            x as int,
            0,
        ));
        r
    }

    fn duplicate(&self) -> (r: i32) {
        *self
    }
}

impl Arbitrary for i64 {
    type Model = int;

    open spec fn model(&self) -> int {
        *self as int
    }

    open spec fn shrink_spec(m: int) -> Seq<int> {
        signed_shrinks(m, i64::MIN as int)
    }

    open spec fn weight(m: int) -> nat {
        signed_weight(m)
    }

    open spec fn within(m: int, size: nat) -> bool {
        true
    }

    proof fn lemma_shrink_lighter(m: int) {
        lemma_signed_shrinks_lighter(m, i64::MIN as int);
    }

    fn arbitrary(g: &mut Gen) -> (r: i64) {
        let roll = g.gen_range(0, 10);
        if roll == 0 {
            let problems: [i64; 3] = [i64::MIN, 0, i64::MAX];
            let picked = *g.pick(&problems).unwrap();
            i64_of_draw(roll, picked, 0)
        } else {
            let v = g.draw::<i64>();
            i64_of_draw(roll, 0, v)
        }
    }

    fn shrink(&self) -> (r: Vec<i64>) {
        let x = *self;
        let mut r: Vec<i64> = Vec::new();
        if x == 0 {
            assert(r@.map_values(|v: i64| v as int) =~= Self::shrink_spec(self.model()));
            return r;
        }
        r.push(0);
        let mut i: i64 = x / 2;
        if i < 0 && x != i64::MIN {
            r.push(-x);
        }
        assert(r@.map_values(|v: i64| v as int) + halvings(x as int, i as int) =~= signed_shrinks(
            x as int,
            i64::MIN as int,
        ));
        while i != 0
            invariant
                (x > 0 && 0 <= i <= x) || (x < 0 && x <= i <= 0),
                r@.map_values(|v: i64| v as int) + halvings(x as int, i as int) == signed_shrinks(
                    x as int,
                    i64::MIN as int,
                ),
            decreases abs(i as int),
        {
            proof {
                lemma_halving_step(r@.map_values(|v: i64| v as int), x as int, i as int);
            }
            let ghost prev = r@;
            r.push(x - i);
            proof {
                lemma_map_push(prev, (x - i) as i64, |v: i64| v as int);
            }
            i = i / 2;
        }
        assert(r@.map_values(|v: i64| v as int) =~= r@.map_values(|v: i64| v as int) + halvings(
            x as int,
            0,
        ));
        r
    }

    fn duplicate(&self) -> (r: i64) {
        *self
    }
}

impl Arbitrary for i128 {
    type Model = int;

    open spec fn model(&self) -> int {
        *self as int
    }

    open spec fn shrink_spec(m: int) -> Seq<int> {
        signed_shrinks(m, i128::MIN as int)
    }

    open spec fn weight(m: int) -> nat {
        signed_weight(m)
    }

    open spec fn within(m: int, size: nat) -> bool {
        true
    }

    proof fn lemma_shrink_lighter(m: int) {
        lemma_signed_shrinks_lighter(m, i128::MIN as int);
    }

    fn arbitrary(g: &mut Gen) -> (r: i128) {
        let roll = g.gen_range(0, 10);
        if roll == 0 {
            let problems: [i128; 3] = [i128::MIN, 0, i128::MAX];
            let picked = *g.pick(&problems).unwrap();
            i128_of_draw(roll, picked, 0)
        } else {
            let v = g.draw::<i128>();
            i128_of_draw(roll, 0, v)
        }
    }

    fn shrink(&self) -> (r: Vec<i128>) {
        let x = *self;
        let mut r: Vec<i128> = Vec::new();
        if x == 0 {
            assert(r@.map_values(|v: i128| v as int) =~= Self::shrink_spec(self.model()));
            return r;
        }
        r.push(0);
        let mut i: i128 = x / 2;
        if i < 0 && x != i128::MIN {
            r.push(-x);
        }
        assert(r@.map_values(|v: i128| v as int) + halvings(x as int, i as int) =~= signed_shrinks(
            x as int,
            i128::MIN as int,
        ));
        while i != 0
            invariant
                (x > 0 && 0 <= i <= x) || (x < 0 && x <= i <= 0),
                r@.map_values(|v: i128| v as int) + halvings(x as int, i as int) == signed_shrinks(
                    x as int,
                    i128::MIN as int,
                ),
            decreases abs(i as int),
        {
            proof {
                lemma_halving_step(r@.map_values(|v: i128| v as int), x as int, i as int);
            }
            let ghost prev = r@;
            r.push(x - i);
            proof {
                lemma_map_push(prev, (x - i) as i128, |v: i128| v as int);
            }
            i = i / 2;
        }
        assert(r@.map_values(|v: i128| v as int) =~= r@.map_values(|v: i128| v as int) + halvings(
            x as int,
            0,
        ));
        r
    }

    fn duplicate(&self) -> (r: i128) {
        *self
    }
}

impl Arbitrary for isize {
    type Model = int;

    open spec fn model(&self) -> int {
        *self as int
    }

    open spec fn shrink_spec(m: int) -> Seq<int> {
        signed_shrinks(m, isize::MIN as int)
    }

    open spec fn weight(m: int) -> nat {
        signed_weight(m)
    }

    open spec fn within(m: int, size: nat) -> bool {
        true
    }

    proof fn lemma_shrink_lighter(m: int) {
        lemma_signed_shrinks_lighter(m, isize::MIN as int);
    }

    fn arbitrary(g: &mut Gen) -> (r: isize) {
        let roll = g.gen_range(0, 10);
        if roll == 0 {
            let problems: [isize; 3] = [isize::MIN, 0, isize::MAX];
            let picked = *g.pick(&problems).unwrap();
            isize_of_draw(roll, picked, 0)
        } else {
            let v = g.draw::<isize>();
            isize_of_draw(roll, 0, v)
        }
    }

    fn shrink(&self) -> (r: Vec<isize>) {
        let x = *self;
        let mut r: Vec<isize> = Vec::new();
        if x == 0 {
            assert(r@.map_values(|v: isize| v as int) =~= Self::shrink_spec(self.model()));
            return r;
        }
        r.push(0);
        let mut i: isize = x / 2;
        if i < 0 && x != isize::MIN {
            r.push(-x);
        }
        assert(r@.map_values(|v: isize| v as int) + halvings(x as int, i as int) =~= signed_shrinks(
            x as int,
            isize::MIN as int,
        ));
        while i != 0
            invariant
                (x > 0 && 0 <= i <= x) || (x < 0 && x <= i <= 0),
                r@.map_values(|v: isize| v as int) + halvings(x as int, i as int) == signed_shrinks(
                    x as int,
                    isize::MIN as int,
                ),
            decreases abs(i as int),
        {
            proof {
                lemma_halving_step(r@.map_values(|v: isize| v as int), x as int, i as int);
            }
            let ghost prev = r@;
            r.push(x - i);
            proof {
                lemma_map_push(prev, (x - i) as isize, |v: isize| v as int);
            }
            i = i / 2;
        }
        assert(r@.map_values(|v: isize| v as int) =~= r@.map_values(|v: isize| v as int) + halvings(
            x as int,
            0,
        ));
        r
    }

    fn duplicate(&self) -> (r: isize) {
        *self
    }
}

} // verus!
