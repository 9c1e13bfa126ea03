use rand::rngs::SmallRng;
use rand::SeedableRng;

use quickcheck::{
    BlockShrinker, DivShrinker, EntropyPool, ModuloSize, Shrinker, StdShrinker, SubShrinker,
    ZeroOut,
};

fn pool_of(bytes: &[u8]) -> EntropyPool {
    EntropyPool { rng: SmallRng::seed_from_u64(7), v: bytes.to_vec(), i: 0 }
}

#[test]
fn zero_out_clears_its_range_once() {
    let mut z = ZeroOut::fresh();
    let mut pool = vec![9u8, 1, 2, 3, 9];
    assert!(z.use_shrinker(1, &mut pool, 1, 4));
    assert_eq!(pool, vec![9, 0, 0, 0, 9]);
    assert!(!z.use_shrinker(1, &mut pool, 1, 4));
    assert_eq!(pool, vec![9, 0, 0, 0, 9]);
}

#[test]
fn modulo_size_reduces_each_word() {
    let mut m = ModuloSize::<u8>::fresh();
    let mut pool = vec![7u8, 9];
    assert!(m.use_shrinker(4, &mut pool, 0, 2));
    assert_eq!(pool, vec![3, 1]);
    let mut pool = vec![8u8];
    assert!(!m.use_shrinker(4, &mut pool, 0, 1));
    assert_eq!(pool, vec![8]);
    let mut m32 = ModuloSize::<u32>::fresh();
    let mut pool = vec![10u8, 0, 0, 0, 99];
    assert!(m32.use_shrinker(3, &mut pool, 0, 5));
    assert_eq!(pool, vec![1, 0, 0, 0, 99]);
}

#[test]
fn div_shrinker_lowers_its_divisor_until_a_word_is_above_it() {
    let mut d = DivShrinker::<u8>::fresh();
    let mut pool = vec![10u8];
    assert!(d.use_shrinker(1, &mut pool, 0, 1));
    assert_eq!(pool, vec![1]);
    let mut pool = vec![1u8, 0];
    assert!(!DivShrinker::<u8>::fresh().use_shrinker(1, &mut pool, 0, 2));
    assert_eq!(pool, vec![1, 0]);
}

#[test]
fn sub_shrinker_lowers_its_difference_until_a_word_is_above_it() {
    let mut s = SubShrinker::<u8>::fresh();
    let mut pool = vec![10u8];
    assert!(s.use_shrinker(1, &mut pool, 0, 1));
    assert_eq!(pool, vec![1]);
    let mut pool = vec![200u8, 3];
    let mut s = SubShrinker::<u8>::fresh();
    assert!(s.use_shrinker(1, &mut pool, 0, 2));
    assert_eq!(pool, vec![72, 3]);
}

#[test]
fn block_shrinker_tries_the_whole_range_first() {
    let mut b = BlockShrinker::<ZeroOut>::fresh();
    let mut pool = vec![0u8, 5, 0, 0];
    assert!(b.use_shrinker(1, &mut pool, 0, 4));
    assert_eq!(pool, vec![0, 0, 0, 0]);
    assert!(!b.use_shrinker(1, &mut pool, 0, 4));
}

#[test]
fn block_shrinker_moves_to_smaller_blocks() {
    let mut b = BlockShrinker::<ModuloSize<u8>>::fresh();
    let mut pool = vec![5u8, 6, 7];
    assert!(b.use_shrinker(2, &mut pool, 0, 3));
    assert_eq!(pool, vec![1, 6, 1]);
}

#[test]
fn std_shrinker_runs_out_of_steps() {
    let mut s = StdShrinker::fresh();
    let mut pool = vec![200u8, 100, 7, 3, 0, 0, 0, 1];
    let mut steps = 0;
    while s.use_shrinker(1, &mut pool, 0, 8) {
        steps += 1;
        assert!(steps < 100_000);
    }
    assert!(steps >= 1);
    assert!(pool.iter().all(|b| *b == 0));
}

#[test]
fn entropy_pool_reads_little_endian_words() {
    let mut p = pool_of(&[1, 2, 3, 4, 5, 6, 7, 8, 9, 10, 11, 12]);
    assert_eq!(p.next_u32(), 0x04030201);
    assert_eq!(p.next_u64(), 0x0c0b0a0908070605);
    assert_eq!(p.i, 12);
}

#[test]
fn entropy_pool_grows_and_randomizes() {
    let mut p = EntropyPool::new(SmallRng::seed_from_u64(1), 4);
    assert!(p.v.is_empty());
    let _ = p.next_u32();
    assert!(p.v.len() >= 4);
    let mut dest = vec![0u8; 6];
    p.fill_bytes(&mut dest);
    assert_eq!(p.i, 10);
    assert_eq!(&dest[..], &p.v[4..10]);
    let tail = p.v[10..].to_vec();
    p.randomize();
    assert_eq!(p.i, 0);
    assert_eq!(&p.v[10..], &tail[..]);
}
