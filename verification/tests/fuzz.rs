use propcheck::fuzz::{fnv_hash, minimize, mutate, run_fuzz, seed_from_bytes};
use propcheck::{fuzz_typed, FuzzConfig, TypedFuzzConfig, XorShift64};
use propcheck::rng::Rng;

fn base(iterations: usize, max_input_len: usize, seed: u64, initial_corpus: Vec<Vec<u8>>, minimize_steps: usize) -> FuzzConfig {
    FuzzConfig {
        iterations,
        max_input_len,
        seed,
        initial_corpus,
        minimize_steps,
        silence_panic_hook: false,
        continue_after_crash: false,
        dedup_by_message: true,
        dictionary: Vec::new(),
        corpus_dir: None,
        crash_dir: None,
    }
}

#[test]
fn typed_finds_typed_crash() {
    let cfg = TypedFuzzConfig {
        inner: base(100_000, 32, 0x5EED_C0DE, vec![b"seed-input".to_vec()], 100),
        size: 16,
    };
    let report = fuzz_typed::<u8, _>(cfg, |n: &u8| {
        if *n == 0xAB {
            Err(format!("triggered on {n:#x}"))
        } else {
            Ok(())
        }
    });
    assert!(report.failure().is_some(), "should find a crash");
}

#[test]
fn typed_no_crash_for_benign_target() {
    let cfg = TypedFuzzConfig {
        inner: base(500, 32, 0xC0DE, vec![b"seed".to_vec()], 50),
        size: 16,
    };
    let report = fuzz_typed::<Vec<u8>, _>(cfg, |_v: &Vec<u8>| Ok(()));
    assert!(report.failure().is_none());
}

#[test]
fn finds_simple_crash_and_minimizes_it() {
    let (report, _) = run_fuzz(&base(50_000, 64, 0xDEAD_BEEF, vec![b"hello world".to_vec()], 200), Vec::new(), &|data: &[u8]| {
        if data.contains(&0xCC) { Err("trigger".to_string()) } else { Ok(()) }
    });
    let failure = report.failure().expect("should have found a crash");
    assert_eq!(failure.input, vec![0xCC]);
    assert!(failure.message.contains("trigger"));
    assert_eq!(report.iterations, failure.iteration);
}

#[test]
fn no_crash_means_no_failure() {
    let (report, kept) = run_fuzz(&base(200, 64, 1, vec![b"hello world".to_vec()], 200), Vec::new(), &|_data: &[u8]| Ok(()));
    assert!(report.failure().is_none());
    assert_eq!(report.iterations, 200);
    for (h, bytes) in &kept {
        assert_eq!(*h, fnv_hash(bytes));
    }
}

#[test]
fn dedup_keeps_only_unique_crash_messages() {
    let mut cfg = base(5_000, 32, 11, vec![b"hi".to_vec()], 50);
    cfg.continue_after_crash = true;
    let (report, _) = run_fuzz(&cfg, Vec::new(), &|data: &[u8]| {
        if data.contains(&0xCC) { Err("same message every time".to_string()) } else { Ok(()) }
    });
    assert_eq!(report.failures.len(), 1);
}

#[test]
fn run_is_reproducible_for_same_seed() {
    let target = |data: &[u8]| {
        if data.len() >= 2 && data[0] == b'!' && data[1] == b'?' { Err("match".to_string()) } else { Ok(()) }
    };
    let (a, _) = run_fuzz(&base(5_000, 64, 0xABC, vec![b"hello world".to_vec()], 200), Vec::new(), &target);
    let (b, _) = run_fuzz(&base(5_000, 64, 0xABC, vec![b"hello world".to_vec()], 200), Vec::new(), &target);
    match (a.failure(), b.failure()) {
        (Some(fa), Some(fb)) => {
            assert_eq!(fa.iteration, fb.iteration);
            assert_eq!(fa.input, fb.input);
        }
        (None, None) => {}
        _ => panic!("non-deterministic outcome"),
    }
}

#[test]
fn fnv_hash_matches_the_reference_values() {
    assert_eq!(fnv_hash(b""), 0xcbf2_9ce4_8422_2325);
    assert_eq!(fnv_hash(b"a"), 0xaf63_dc4c_8601_ec8c);
}

#[test]
fn seed_from_bytes_is_never_zero_and_depends_on_bytes() {
    assert_ne!(seed_from_bytes(b""), 0);
    assert_ne!(seed_from_bytes(b"abc"), seed_from_bytes(b"abd"));
    assert_eq!(seed_from_bytes(b"abc"), seed_from_bytes(b"abc"));
}

#[test]
fn mutate_keeps_short_inputs_within_the_limit() {
    let mut rng = XorShift64::seed_from_u64(9);
    let corpus = vec![b"0123456789".to_vec()];
    let dict = vec![b"MAGIC".to_vec()];
    for _ in 0..500 {
        let mut input = b"abc".to_vec();
        mutate(&mut rng, &mut input, &corpus, &dict, 8);
        assert!(input.len() <= 8);
    }
}

#[test]
fn minimize_removes_then_zeroes_bytes() {
    let target = |d: &[u8]| if d.iter().filter(|&&b| b != 0).count() >= 1 && d.len() >= 2 { Err("x".to_string()) } else { Ok(()) };
    let m = minimize(&[5, 6, 7], &target, 100);
    assert_eq!(m, vec![0, 7]);
}

#[test]
fn finds_typed_crash() {
    let cfg = TypedFuzzConfig {
        inner: base(100_000, 32, 0x5EED_C0DE, vec![b"seed-input".to_vec()], 100),
        size: 16,
    };
    let report = fuzz_typed::<u8, _>(cfg, |n: &u8| {
        if *n == 0xAB {
            Err(format!("triggered on {n:#x}"))
        } else {
            Ok(())
        }
    });
    assert!(report.failure().is_some(), "should find a crash");
}

#[test]
fn no_crash_for_benign_target() {
    let cfg = TypedFuzzConfig {
        inner: base(500, 32, 0xC0DE, vec![b"seed".to_vec()], 50),
        size: 16,
    };
    let report = fuzz_typed::<Vec<u8>, _>(cfg, |_v: &Vec<u8>| Ok(()));
    assert!(report.failure().is_none());
}

#[test]
fn mutate_with_nothing_applicable_draws_three_kinds_and_keeps_input() {
    let mut a = XorShift64::seed_from_u64(9);
    let mut b = a.clone();
    let mut v: Vec<u8> = Vec::new();
    mutate(&mut a, &mut v, &[], &[], 0);
    assert!(v.is_empty());
    for _ in 0..3 {
        b.next_u64();
    }
    assert_eq!(a.state(), b.state());
}

#[test]
fn mutate_appends_a_byte_when_only_growth_is_possible() {
    // An empty input below the limit: only kind 3 (insert) applies, or the
    // final append; either way one byte is added.
    let mut a = XorShift64::seed_from_u64(77);
    let mut v: Vec<u8> = Vec::new();
    mutate(&mut a, &mut v, &[], &[], 4);
    assert_eq!(v.len(), 1);
    let mut r = XorShift64::seed_from_u64(1);
    let mut w: Vec<u8> = vec![1, 2, 3];
    for _ in 0..50 {
        mutate(&mut r, &mut w, &[vec![9, 9]], &[b"KEY".to_vec()], 8);
        assert!(w.len() <= 8);
    }
    let _ = r.next_u64();
}
