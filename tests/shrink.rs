use std::collections::{HashSet, VecDeque};
use std::fmt::Debug;
use std::hash::Hash;
use std::num::Wrapping;
use std::ops::Bound::{Excluded, Included, Unbounded};

use quickcheck::{empty_shrinker, single_shrinker, Arbitrary};

fn eq<A: Arbitrary + Eq + Debug + Hash>(s: A, v: Vec<A>) {
    let (left, right) = (shrunk(s), set(v));
    assert_eq!(left, right);
}

fn shrunk<A: Arbitrary + Eq + Hash>(s: A) -> HashSet<A> {
    set(s.shrink())
}

fn set<A: Hash + Eq, I: IntoIterator<Item = A>>(xs: I) -> HashSet<A> {
    xs.into_iter().collect()
}

fn ordered_eq<A: Arbitrary + Eq + Debug>(s: A, v: Vec<A>) {
    let (left, right) = (s.shrink(), v);
    assert_eq!(left, right);
}

#[test]
fn unit() {
    eq((), vec![]);
}

#[test]
fn bools() {
    eq(false, vec![]);
    eq(true, vec![false]);
}

#[test]
fn options() {
    eq(None::<()>, vec![]);
    eq(Some(false), vec![None]);
    eq(Some(true), vec![None, Some(false)]);
}

#[test]
fn results() {
    ordered_eq(Ok::<bool, ()>(true), vec![Ok(false)]);
    ordered_eq(Err::<(), bool>(true), vec![Err(false)]);
}

#[test]
fn tuples() {
    eq((false, false), vec![]);
    eq((true, false), vec![(false, false)]);
    eq((true, true), vec![(false, true), (true, false)]);
}

#[test]
fn triples() {
    eq((false, false, false), vec![]);
    eq((true, false, false), vec![(false, false, false)]);
    eq(
        (true, true, false),
        vec![(false, true, false), (true, false, false)],
    );
}

#[test]
fn quads() {
    eq((false, false, false, false), vec![]);
    eq((true, false, false, false), vec![(false, false, false, false)]);
    eq(
        (true, true, false, false),
        vec![(false, true, false, false), (true, false, false, false)],
    );
}

#[test]
fn ints() {
    eq(5isize, vec![0, 3, 4]);
    eq(-5isize, vec![5, 0, -3, -4]);
    eq(0isize, vec![]);
}

#[test]
fn ints8() {
    eq(5i8, vec![0, 3, 4]);
    eq(-5i8, vec![5, 0, -3, -4]);
    eq(0i8, vec![]);
}

#[test]
fn ints16() {
    eq(5i16, vec![0, 3, 4]);
    eq(-5i16, vec![5, 0, -3, -4]);
    eq(0i16, vec![]);
}

#[test]
fn ints32() {
    eq(5i32, vec![0, 3, 4]);
    eq(-5i32, vec![5, 0, -3, -4]);
    eq(0i32, vec![]);
}

#[test]
fn ints64() {
    eq(5i64, vec![0, 3, 4]);
    eq(-5i64, vec![5, 0, -3, -4]);
    eq(0i64, vec![]);
}

#[test]
fn ints128() {
    eq(5i128, vec![0, 3, 4]);
    eq(-5i128, vec![5, 0, -3, -4]);
    eq(0i128, vec![]);
}

#[test]
fn uints() {
    eq(5usize, vec![0, 3, 4]);
    eq(0usize, vec![]);
}

#[test]
fn uints8() {
    eq(5u8, vec![0, 3, 4]);
    eq(0u8, vec![]);
}

#[test]
fn uints16() {
    eq(5u16, vec![0, 3, 4]);
    eq(0u16, vec![]);
}

#[test]
fn uints32() {
    eq(5u32, vec![0, 3, 4]);
    eq(0u32, vec![]);
}

#[test]
fn uints64() {
    eq(5u64, vec![0, 3, 4]);
    eq(0u64, vec![]);
}

#[test]
fn uints128() {
    eq(5u128, vec![0, 3, 4]);
    eq(0u128, vec![]);
}

#[test]
fn vecs() {
    eq(
        {
            let it: Vec<isize> = vec![];
            it
        },
        vec![],
    );
    eq(
        {
            let it: Vec<Vec<isize>> = vec![vec![]];
            it
        },
        vec![vec![]],
    );
    eq(vec![1isize], vec![vec![], vec![0]]);
    eq(vec![11isize], vec![vec![], vec![0], vec![6], vec![9], vec![10]]);
    eq(
        vec![3isize, 5],
        vec![
            vec![],
            vec![5],
            vec![3],
            vec![0, 5],
            vec![2, 5],
            vec![3, 0],
            vec![3, 3],
            vec![3, 4],
        ],
    );
}

#[test]
fn chars() {
    eq('\x00', vec![]);
}

#[test]
fn regression_signed_shrinker_panic() {
    let v: i8 = i8::MIN;
    let n = Arbitrary::shrink(&v).into_iter().take(100).count();
    assert!(n <= 100);
}

#[test]
fn vec_shrink_order_is_exact() {
    let got = vec![3isize, 5].shrink();
    let want: Vec<Vec<isize>> = vec![
        vec![],
        vec![5],
        vec![3],
        vec![0, 5],
        vec![2, 5],
        vec![3, 0],
        vec![3, 3],
        vec![3, 4],
    ];
    assert_eq!(got, want);
}

#[test]
fn vec_of_four_removes_halves_then_singles() {
    let got = vec![1u8, 1, 1, 1].shrink();
    assert_eq!(got[0], Vec::<u8>::new());
    assert_eq!(got[1], vec![1, 1]);
    assert_eq!(got[2], vec![1, 1]);
    assert_eq!(got[3], vec![1, 1, 1]);
    assert_eq!(got[6], vec![1, 1, 1]);
    assert_eq!(got[7], vec![0, 1, 1, 1]);
    assert_eq!(got.len(), 11);
}

#[test]
fn tuple_shrink_order_is_exact() {
    assert_eq!((true, true).shrink(), vec![(false, true), (true, false)]);
    assert_eq!((2u8, true).shrink(), vec![(0, true), (1, true), (2, false)]);
}

#[test]
fn signed_shrink_order_is_exact() {
    assert_eq!((-5i32).shrink(), vec![0, 5, -3, -4]);
    assert_eq!(100u32.shrink(), vec![0, 50, 75, 88, 94, 97, 99]);
    assert_eq!((-1i64).shrink(), vec![0]);
}

#[test]
fn minimum_signed_value_shrinks_to_a_finite_list() {
    let got = i8::MIN.shrink();
    assert_eq!(got, vec![0, -64, -96, -112, -120, -124, -126, -127]);
    assert!(got.iter().all(|c| (*c as i32).abs() < 128));
}

#[test]
fn floors_have_no_candidates() {
    assert!(0u64.shrink().is_empty());
    assert!(0i16.shrink().is_empty());
    assert!(false.shrink().is_empty());
    assert!(().shrink().is_empty());
    assert!(None::<u8>.shrink().is_empty());
    assert!(Vec::<u32>::new().shrink().is_empty());
    assert!(String::new().shrink().is_empty());
    assert!('\0'.shrink().is_empty());
    assert!((0u8, false, None::<i32>).shrink().is_empty());
}

#[test]
fn candidates_are_smaller() {
    for x in [1u64, 2, 3, 17, 1000, u64::MAX] {
        assert!(x.shrink().iter().all(|c| *c < x));
    }
    for x in [-1000i64, -17, -2, 2, 17, 1000, i64::MAX] {
        assert!(x
            .shrink()
            .iter()
            .all(|c| c.abs() < x.abs() || (x < 0 && *c == -x)));
    }
    let v = vec![4u8, 0, 9];
    for c in v.shrink() {
        assert!(c.len() <= v.len());
        if c.len() == v.len() {
            let changed = c.iter().zip(v.iter()).filter(|(a, b)| a != b).count();
            assert_eq!(changed, 1);
        }
    }
}

#[test]
fn option_and_result_keep_their_side() {
    assert_eq!(Some(2u8).shrink(), vec![None, Some(0), Some(1)]);
    assert_eq!(Err::<bool, u8>(2).shrink(), vec![Err(0), Err(1)]);
    assert_eq!(Ok::<u8, bool>(0).shrink(), vec![]);
}

#[test]
fn chars_and_strings_shrink_toward_nul() {
    assert_eq!('b'.shrink(), vec!['\0', '1', 'J', 'V', '\\', '_', 'a']);
    let s = String::from("ab");
    let got = s.shrink();
    assert_eq!(got[0], "");
    assert_eq!(got[1], "b");
    assert_eq!(got[2], "a");
    assert_eq!(got[3], "\0b");
}

#[test]
fn surrogate_codes_are_left_out() {
    let c = '\u{E000}';
    let got = c.shrink();
    assert!(got.iter().all(|x| (*x as u32) < 0xE000));
    assert!(!got.iter().any(|x| (0xD800..0xE000).contains(&(*x as u32))));
}

#[test]
fn shrinker_helpers() {
    let e: Vec<u8> = empty_shrinker();
    assert!(e.is_empty());
    assert_eq!(single_shrinker(7u8), vec![7]);
}

#[test]
fn duplicates_are_equal() {
    let v = vec![(1u8, Some('x')), (2, None)];
    assert_eq!(v.duplicate(), v);
    let s = String::from("héllo");
    assert_eq!(s.duplicate(), s);
}

#[test]
fn half_open_ranges() {
    ordered_eq(0..0, vec![]);
    ordered_eq(1..1, vec![0..1, 1..0]);
    ordered_eq(3..5, vec![0..5, 2..5, 3..0, 3..3, 3..4]);
    ordered_eq(5..3, vec![0..3, 3..3, 4..3, 5..0, 5..2]);
}

#[test]
fn boxes_shrink_their_contents() {
    ordered_eq(Box::new(5u8), vec![Box::new(0), Box::new(3), Box::new(4)]);
    ordered_eq(Box::new(false), vec![]);
}

#[test]
fn wrapping_ints32() {
    eq(
        Wrapping(5i32),
        vec![Wrapping(0), Wrapping(3), Wrapping(4)],
    );
    eq(
        Wrapping(-5i32),
        vec![Wrapping(5), Wrapping(0), Wrapping(-3), Wrapping(-4)],
    );
    eq(Wrapping(0i32), vec![]);
}

#[test]
fn bounds() {
    for i in -5..=5 {
        ordered_eq(Included(i), i.shrink().into_iter().map(Included).collect());
        ordered_eq(Excluded(i), i.shrink().into_iter().map(Excluded).collect());
    }
    eq(Unbounded::<i32>, vec![]);
}

#[test]
fn vecdeques() {
    ordered_eq(VecDeque::<usize>::new(), vec![]);
    let mut list = VecDeque::new();
    list.push_back(2usize);
    let shrinks = vec![
        VecDeque::new(),
        {
            let mut m = VecDeque::new();
            m.push_back(0);
            m
        },
        {
            let mut m = VecDeque::new();
            m.push_back(1);
            m
        },
    ];
    ordered_eq(list, shrinks);
}

#[test]
fn open_ended_ranges() {
    ordered_eq(3.., vec![0.., 2..]);
    ordered_eq(..3, vec![..0, ..2]);
    ordered_eq(.., vec![]);
    ordered_eq(..=3, vec![..=0, ..=2]);
}

#[test]
fn shared_values_shrink_their_contents() {
    ordered_eq(
        std::sync::Arc::new(5u8),
        vec![std::sync::Arc::new(0), std::sync::Arc::new(3), std::sync::Arc::new(4)],
    );
}
