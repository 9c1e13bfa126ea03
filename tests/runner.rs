use quickcheck::{quickcheck, Arbitrary, Gen, QuickCheck, TestResult, Testable};

fn reverse<T: Clone>(xs: &[T]) -> Vec<T> {
    let mut rev = vec![];
    for x in xs {
        rev.insert(0, x.clone())
    }
    rev
}

fn sieve(n: usize) -> Vec<usize> {
    if n <= 1 {
        return vec![];
    }
    let mut marked: Vec<_> = (0..n + 1).map(|_| false).collect();
    marked[0] = true;
    marked[1] = true;
    for p in 2..n {
        // the mark step should start at p * p and reach n itself
        for i in (2 * p..n).step_by(p) {
            marked[i] = true;
        }
    }
    let mut primes = vec![];
    for (i, &m) in marked.iter().enumerate() {
        if !m {
            primes.push(i)
        }
    }
    primes
}

fn is_prime(n: usize) -> bool {
    n != 0 && n != 1 && (2..).take_while(|i| i * i <= n).all(|i| n % i != 0)
}

#[test]
fn shrinking_regression_issue_126() {
    let thetest = |(vals,): (Vec<bool>,)| vals.iter().filter(|&v| *v).count() < 2;
    let failing_case = QuickCheck::new().quicktest(&thetest).unwrap_err();
    let expected_argument = format!("{:?}", [true, true]);
    assert_eq!(failing_case.arguments(), &vec![expected_argument]);
}

#[test]
fn size_for_small_types_issue_143() {
    let t = |(_,): (i8,)| true;
    let r = QuickCheck::new().gen(Gen::new(129)).quickcheck(&t);
    assert_eq!(r, Ok(100));
}

#[test]
fn prop_reverse_reverse() {
    let prop = |(xs,): (Vec<usize>,)| {
        let rev: Vec<_> = xs.clone().into_iter().rev().collect();
        let revrev: Vec<_> = rev.into_iter().rev().collect();
        xs == revrev
    };
    assert!(quickcheck(&prop).is_ok());
}

#[test]
fn reverse_involution_on_isize_vectors() {
    let prop = |(xs,): (Vec<isize>,)| xs == reverse(&reverse(&xs));
    assert_eq!(QuickCheck::new().quicktest(&prop).unwrap(), 100);
}

#[test]
fn reverse_single() {
    let prop = |(xs,): (Vec<usize>,)| {
        if xs.len() != 1 {
            return TestResult::discard();
        }
        TestResult::from_bool(xs == xs.clone().into_iter().rev().collect::<Vec<_>>())
    };
    assert!(quickcheck(&prop).is_ok());
}

#[test]
fn reverse_app() {
    let prop = |(xs, ys): (Vec<usize>, Vec<usize>)| {
        let mut app = xs.clone();
        app.extend(ys.iter().cloned());
        let app_rev: Vec<usize> = app.into_iter().rev().collect();

        let rxs: Vec<usize> = xs.into_iter().rev().collect();
        let mut rev_app = ys.into_iter().rev().collect::<Vec<usize>>();
        rev_app.extend(rxs.into_iter());

        app_rev == rev_app
    };
    assert!(quickcheck(&prop).is_ok());
}

#[test]
fn max() {
    let prop = |(x, y): (isize, isize)| {
        if x > y {
            TestResult::discard()
        } else {
            TestResult::from_bool(::std::cmp::max(x, y) == y)
        }
    };
    assert!(quickcheck(&prop).is_ok());
}

#[test]
fn sort() {
    let prop = |(mut xs,): (Vec<isize>,)| {
        xs.sort_by(|x, y| x.cmp(y));
        let upto = if xs.len() == 0 { 0 } else { xs.len() - 1 };
        for i in 0..upto {
            if xs[i] > xs[i + 1] {
                return false;
            }
        }
        true
    };
    assert!(quickcheck(&prop).is_ok());
}

#[test]
fn sieve_of_eratosthenes() {
    let prop = |(n,): (u16,)| sieve(n as usize).iter().all(|&i| is_prime(i));
    let r = QuickCheck::new().quicktest(&prop);
    let failing = r.unwrap_err();
    assert!(failing.is_failure());
    assert!(!failing.is_error());
    let n: usize = failing.arguments()[0].parse().unwrap();
    assert!(!is_prime(n) && n >= 4);
    assert!([4, 6, 14].contains(&n), "unexpected witness {}", n);
}

#[test]
fn out_of_bounds_lookups_fail() {
    let prop = |(xs, index): (Vec<isize>, usize)| {
        if index < xs.len() {
            TestResult::discard()
        } else {
            TestResult::from_bool(xs.get(index).is_none())
        }
    };
    assert!(quickcheck(&prop).is_ok());
}

#[test]
fn runtime_errors_are_reported_with_their_message() {
    let prop = |(xs, index): (Vec<isize>, usize)| {
        if index < xs.len() {
            TestResult::discard()
        } else {
            TestResult::error("index out of bounds")
        }
    };
    let r = QuickCheck::new().quicktest(&prop).unwrap_err();
    assert!(r.is_error());
    assert_eq!(r.arguments(), &vec!["[]".to_string(), "0".to_string()]);
    assert_eq!(
        r.failed_msg(),
        "[quickcheck] TEST FAILED (runtime error). Arguments: ([], 0)\nError: index out of bounds"
    );
}

#[test]
fn always_discarding_is_exhaustion() {
    let prop = |(_,): (u8,)| TestResult::discard();
    let mut qc = QuickCheck::new().max_tests(500).min_tests_passed(1);
    assert_eq!(qc.quicktest(&prop).unwrap(), 0);
    assert_eq!(
        qc.quickcheck(&prop),
        Err("(Unable to generate enough tests, 0 not discarded.)".to_string())
    );
    assert_eq!(
        quickcheck(&prop),
        Err("(Unable to generate enough tests, 0 not discarded.)".to_string())
    );
    let mut default_qc = QuickCheck::new().max_tests(200);
    assert_eq!(default_qc.quicktest(&prop).unwrap(), 0);
    assert!(default_qc.quickcheck(&prop).unwrap_err().starts_with("(Unable to generate"));
}

#[test]
fn too_few_passes_is_reported_with_the_count() {
    let prop = |(x,): (u8,)| {
        if x == 0 {
            TestResult::passed()
        } else {
            TestResult::discard()
        }
    };
    let mut qc = QuickCheck::new().tests(5).max_tests(3).min_tests_passed(7);
    let r = qc.quickcheck(&prop).unwrap_err();
    assert!(r.starts_with("(Unable to generate enough tests, "));
    assert!(r.ends_with(" not discarded.)"));
}

#[test]
fn passing_runs_stop_at_the_configured_count() {
    let prop = |(): ()| true;
    assert_eq!(QuickCheck::new().tests(7).quicktest(&prop).unwrap(), 7);
    assert_eq!(QuickCheck::new().tests(70).max_tests(9).quicktest(&prop).unwrap(), 9);
    assert_eq!(QuickCheck::new().tests(0).quicktest(&prop).unwrap(), 0);
}

#[test]
fn failure_message_lists_the_shrunk_arguments() {
    let prop = |(x, y): (u32, bool)| x < 10 || !y;
    let r = QuickCheck::new().quicktest(&prop).unwrap_err();
    assert_eq!(r.arguments(), &vec!["10".to_string(), "true".to_string()]);
    assert_eq!(r.failed_msg(), "[quickcheck] TEST FAILED. Arguments: (10, true)");
    assert!(!r.is_error());
}

#[test]
fn result_properties_fail_on_err() {
    let prop = |(x,): (u8,)| -> Result<bool, String> {
        if x > 200 {
            Err(format!("too big: {}", x))
        } else {
            Ok(true)
        }
    };
    let r = QuickCheck::new().quicktest(&prop).unwrap_err();
    assert!(r.is_error());
    assert_eq!(r.arguments(), &vec!["201".to_string()]);
    assert_eq!(
        r.failed_msg(),
        "[quickcheck] TEST FAILED (runtime error). Arguments: (201)\nError: \"too big: 201\""
    );
}

#[test]
fn test_result_constructors() {
    let mut g = Gen::new(10);
    assert!(!TestResult::passed().is_failure());
    assert!(TestResult::failed().is_failure());
    assert!(!TestResult::failed().is_error());
    assert!(TestResult::error("boom").is_error());
    assert!(!TestResult::discard().is_failure());
    assert!(TestResult::from_bool(false).is_failure());
    assert!(!TestResult::from_bool(true).is_failure());
    assert!(true.result(&mut g).arguments().is_empty());
    assert!(false.result(&mut g).is_failure());
    assert!(!().result(&mut g).is_failure());
    assert_eq!(
        TestResult::failed().failed_msg(),
        "[quickcheck] TEST FAILED. Arguments: ()"
    );
    assert_eq!(g.size(), 10);
}

#[test]
fn generated_vectors_respect_the_size() {
    let mut g = Gen::new(4);
    for _ in 0..200 {
        let v: Vec<u8> = Arbitrary::arbitrary(&mut g);
        assert!(v.len() < 4);
        let s: String = Arbitrary::arbitrary(&mut g);
        assert!(s.chars().count() < 4);
    }
    let mut g = Gen::new(0);
    let v: Vec<u8> = Arbitrary::arbitrary(&mut g);
    assert!(v.is_empty());
}

#[test]
fn pick_returns_an_element() {
    let mut g = Gen::new(3);
    let items = [1u8, 2, 3];
    for _ in 0..50 {
        assert!(items.contains(g.pick(&items).unwrap()));
    }
    let empty: [u8; 0] = [];
    assert!(g.pick(&empty).is_none());
}

#[test]
fn one_trial_reports_the_shrunk_failure() {
    let mut g = Gen::new(20);
    let prop = |(xs,): (Vec<u8>,)| xs.len() < 3;
    loop {
        let r = quickcheck::run_property(&mut g, &prop);
        if r.is_failure() {
            assert_eq!(r.arguments(), &vec!["[0, 0, 0]".to_string()]);
            break;
        }
    }
    let always = |(): ()| TestResult::discard();
    assert!(!quickcheck::run_property(&mut g, &always).is_failure());
    assert_eq!(g.size(), 20);
}

#[test]
fn exhaustion_message_prints_the_pass_count() {
    let prop = |(): ()| true;
    let mut qc = QuickCheck::new().tests(120).min_tests_passed(500);
    assert_eq!(
        qc.quickcheck(&prop),
        Err("(Unable to generate enough tests, 120 not discarded.)".to_string())
    );
}

#[test]
fn result_outcomes_keep_the_message_of_their_ok_value() {
    let mut g = Gen::new(3);
    let ok: Result<TestResult, String> = Ok(TestResult::error("boom"));
    let r = ok.result(&mut g);
    assert!(r.is_error());
    assert_eq!(r.failed_msg(), "[quickcheck] TEST FAILED (runtime error). Arguments: ()\nError: boom");
    let err: Result<bool, u8> = Err(7);
    let r = err.result(&mut g);
    assert!(r.is_error());
    assert!(r.arguments().is_empty());
    assert_eq!(r.failed_msg(), "[quickcheck] TEST FAILED (runtime error). Arguments: ()\nError: 7");
}
