use quickcheck::{Arbitrary, Gen};

fn arby<A: Arbitrary>() -> A {
    Arbitrary::arbitrary(&mut Gen::new(5))
}

#[test]
fn arby_unit() {
    assert_eq!(arby::<()>(), ());
}

#[test]
fn arby_int() {
    {
        let mut arbys = (0..1_000_000).map(|_| arby::<i8>());
        let problems: [i8; 3] = [i8::MIN, 0, i8::MAX];
        assert!(
            problems.iter().all(|p| arbys.any(|arby| arby == *p)),
            "Arbitrary does not generate all problematic values"
        );
        let max = i8::MAX;
        let mid = (max + i8::MIN) / 2;
        let _ = mid;
        let double_chunks: i8 = 9;
        let chunks = double_chunks * 2;
        let lim: Vec<i8> = (0..=chunks)
            .map(|idx| idx - chunks / 2)
            .map(|x| mid + max / (chunks / 2) * x)
            .collect();
        for w in lim.windows(2) {
            let (low, high) = (w[0], w[1]);
            assert!(
                arbys.any(|arby| low <= arby && arby <= high),
                "Arbitrary doesn't generate numbers in {}..={}",
                low,
                high
            );
        }
    }
    {
        let mut arbys = (0..1_000_000).map(|_| arby::<i16>());
        let problems: [i16; 3] = [i16::MIN, 0, i16::MAX];
        assert!(
            problems.iter().all(|p| arbys.any(|arby| arby == *p)),
            "Arbitrary does not generate all problematic values"
        );
        let max = i16::MAX;
        let mid = (max + i16::MIN) / 2;
        let _ = mid;
        let double_chunks: i16 = 9;
        let chunks = double_chunks * 2;
        let lim: Vec<i16> = (0..=chunks)
            .map(|idx| idx - chunks / 2)
            .map(|x| mid + max / (chunks / 2) * x)
            .collect();
        for w in lim.windows(2) {
            let (low, high) = (w[0], w[1]);
            assert!(
                arbys.any(|arby| low <= arby && arby <= high),
                "Arbitrary doesn't generate numbers in {}..={}",
                low,
                high
            );
        }
    }
    {
        let mut arbys = (0..1_000_000).map(|_| arby::<i32>());
        let problems: [i32; 3] = [i32::MIN, 0, i32::MAX];
        assert!(
            problems.iter().all(|p| arbys.any(|arby| arby == *p)),
            "Arbitrary does not generate all problematic values"
        );
        let max = i32::MAX;
        let mid = (max + i32::MIN) / 2;
        let _ = mid;
        let double_chunks: i32 = 9;
        let chunks = double_chunks * 2;
        let lim: Vec<i32> = (0..=chunks)
            .map(|idx| idx - chunks / 2)
            .map(|x| mid + max / (chunks / 2) * x)
            .collect();
        for w in lim.windows(2) {
            let (low, high) = (w[0], w[1]);
            assert!(
                arbys.any(|arby| low <= arby && arby <= high),
                "Arbitrary doesn't generate numbers in {}..={}",
                low,
                high
            );
        }
    }
    {
        let mut arbys = (0..1_000_000).map(|_| arby::<i64>());
        let problems: [i64; 3] = [i64::MIN, 0, i64::MAX];
        assert!(
            problems.iter().all(|p| arbys.any(|arby| arby == *p)),
            "Arbitrary does not generate all problematic values"
        );
        let max = i64::MAX;
        let mid = (max + i64::MIN) / 2;
        let _ = mid;
        let double_chunks: i64 = 9;
        let chunks = double_chunks * 2;
        let lim: Vec<i64> = (0..=chunks)
            .map(|idx| idx - chunks / 2)
            .map(|x| mid + max / (chunks / 2) * x)
            .collect();
        for w in lim.windows(2) {
            let (low, high) = (w[0], w[1]);
            assert!(
                arbys.any(|arby| low <= arby && arby <= high),
                "Arbitrary doesn't generate numbers in {}..={}",
                low,
                high
            );
        }
    }
    {
        let mut arbys = (0..1_000_000).map(|_| arby::<isize>());
        let problems: [isize; 3] = [isize::MIN, 0, isize::MAX];
        assert!(
            problems.iter().all(|p| arbys.any(|arby| arby == *p)),
            "Arbitrary does not generate all problematic values"
        );
        let max = isize::MAX;
        let mid = (max + isize::MIN) / 2;
        let _ = mid;
        let double_chunks: isize = 9;
        let chunks = double_chunks * 2;
        let lim: Vec<isize> = (0..=chunks)
            .map(|idx| idx - chunks / 2)
            .map(|x| mid + max / (chunks / 2) * x)
            .collect();
        for w in lim.windows(2) {
            let (low, high) = (w[0], w[1]);
            assert!(
                arbys.any(|arby| low <= arby && arby <= high),
                "Arbitrary doesn't generate numbers in {}..={}",
                low,
                high
            );
        }
    }
    {
        let mut arbys = (0..1_000_000).map(|_| arby::<i128>());
        let problems: [i128; 3] = [i128::MIN, 0, i128::MAX];
        assert!(
            problems.iter().all(|p| arbys.any(|arby| arby == *p)),
            "Arbitrary does not generate all problematic values"
        );
        let max = i128::MAX;
        let mid = (max + i128::MIN) / 2;
        let _ = mid;
        let double_chunks: i128 = 9;
        let chunks = double_chunks * 2;
        let lim: Vec<i128> = (0..=chunks)
            .map(|idx| idx - chunks / 2)
            .map(|x| mid + max / (chunks / 2) * x)
            .collect();
        for w in lim.windows(2) {
            let (low, high) = (w[0], w[1]);
            assert!(
                arbys.any(|arby| low <= arby && arby <= high),
                "Arbitrary doesn't generate numbers in {}..={}",
                low,
                high
            );
        }
    }
}

#[test]
fn arby_uint() {
    {
        let mut arbys = (0..1_000_000).map(|_| arby::<u8>());
        let problems: [u8; 3] = [u8::MIN, 1, u8::MAX];
        assert!(
            problems.iter().all(|p| arbys.any(|arby| arby == *p)),
            "Arbitrary does not generate all problematic values"
        );
        let max = u8::MAX;
        let mid = (max + u8::MIN) / 2;
        let _ = mid;
        let double_chunks: u8 = 9;
        let chunks = double_chunks * 2;
        let lim: Vec<u8> = (0..=chunks).map(|idx| max / chunks * idx).collect();
        for w in lim.windows(2) {
            let (low, high) = (w[0], w[1]);
            assert!(
                arbys.any(|arby| low <= arby && arby <= high),
                "Arbitrary doesn't generate numbers in {}..={}",
                low,
                high
            );
        }
    }
    {
        let mut arbys = (0..1_000_000).map(|_| arby::<u16>());
        let problems: [u16; 3] = [u16::MIN, 1, u16::MAX];
        assert!(
            problems.iter().all(|p| arbys.any(|arby| arby == *p)),
            "Arbitrary does not generate all problematic values"
        );
        let max = u16::MAX;
        let mid = (max + u16::MIN) / 2;
        let _ = mid;
        let double_chunks: u16 = 9;
        let chunks = double_chunks * 2;
        let lim: Vec<u16> = (0..=chunks).map(|idx| max / chunks * idx).collect();
        for w in lim.windows(2) {
            let (low, high) = (w[0], w[1]);
            assert!(
                arbys.any(|arby| low <= arby && arby <= high),
                "Arbitrary doesn't generate numbers in {}..={}",
                low,
                high
            );
        }
    }
    {
        let mut arbys = (0..1_000_000).map(|_| arby::<u32>());
        let problems: [u32; 3] = [u32::MIN, 1, u32::MAX];
        assert!(
            problems.iter().all(|p| arbys.any(|arby| arby == *p)),
            "Arbitrary does not generate all problematic values"
        );
        let max = u32::MAX;
        let mid = (max + u32::MIN) / 2;
        let _ = mid;
        let double_chunks: u32 = 9;
        let chunks = double_chunks * 2;
        let lim: Vec<u32> = (0..=chunks).map(|idx| max / chunks * idx).collect();
        for w in lim.windows(2) {
            let (low, high) = (w[0], w[1]);
            assert!(
                arbys.any(|arby| low <= arby && arby <= high),
                "Arbitrary doesn't generate numbers in {}..={}",
                low,
                high
            );
        }
    }
    {
        let mut arbys = (0..1_000_000).map(|_| arby::<u64>());
        let problems: [u64; 3] = [u64::MIN, 1, u64::MAX];
        assert!(
            problems.iter().all(|p| arbys.any(|arby| arby == *p)),
            "Arbitrary does not generate all problematic values"
        );
        let max = u64::MAX;
        let mid = (max + u64::MIN) / 2;
        let _ = mid;
        let double_chunks: u64 = 9;
        let chunks = double_chunks * 2;
        let lim: Vec<u64> = (0..=chunks).map(|idx| max / chunks * idx).collect();
        for w in lim.windows(2) {
            let (low, high) = (w[0], w[1]);
            assert!(
                arbys.any(|arby| low <= arby && arby <= high),
                "Arbitrary doesn't generate numbers in {}..={}",
                low,
                high
            );
        }
    }
    {
        let mut arbys = (0..1_000_000).map(|_| arby::<usize>());
        let problems: [usize; 3] = [usize::MIN, 1, usize::MAX];
        assert!(
            problems.iter().all(|p| arbys.any(|arby| arby == *p)),
            "Arbitrary does not generate all problematic values"
        );
        let max = usize::MAX;
        let mid = (max + usize::MIN) / 2;
        let _ = mid;
        let double_chunks: usize = 9;
        let chunks = double_chunks * 2;
        let lim: Vec<usize> = (0..=chunks).map(|idx| max / chunks * idx).collect();
        for w in lim.windows(2) {
            let (low, high) = (w[0], w[1]);
            assert!(
                arbys.any(|arby| low <= arby && arby <= high),
                "Arbitrary doesn't generate numbers in {}..={}",
                low,
                high
            );
        }
    }
    {
        let mut arbys = (0..1_000_000).map(|_| arby::<u128>());
        let problems: [u128; 3] = [u128::MIN, 1, u128::MAX];
        assert!(
            problems.iter().all(|p| arbys.any(|arby| arby == *p)),
            "Arbitrary does not generate all problematic values"
        );
        let max = u128::MAX;
        let mid = (max + u128::MIN) / 2;
        let _ = mid;
        let double_chunks: u128 = 9;
        let chunks = double_chunks * 2;
        let lim: Vec<u128> = (0..=chunks).map(|idx| max / chunks * idx).collect();
        for w in lim.windows(2) {
            let (low, high) = (w[0], w[1]);
            assert!(
                arbys.any(|arby| low <= arby && arby <= high),
                "Arbitrary doesn't generate numbers in {}..={}",
                low,
                high
            );
        }
    }
}

