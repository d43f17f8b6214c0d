use propcheck::runner::PropResult;
use propcheck::strategy_runner::compare_outputs;
use propcheck::rng::XorShift64;
use propcheck::strategy::{any, bytes, char_range, int_range, just, one_of, tuple, vec_of, weighted_one_of, Strategy, StrategyExt};

fn r() -> XorShift64 {
    XorShift64::seed_from_u64(0xDEADBEEF)
}

#[test]
fn int_range_stays_in_bounds() {
    let s = int_range(10i32..20);
    let mut rng = r();
    for _ in 0..1000 {
        let v = s.new_value(&mut rng, 50).unwrap();
        assert!((10..20).contains(&v));
    }
}

#[test]
fn int_range_shrinks_toward_zero_inside_range() {
    let s = int_range(-100i32..100);
    let shrinks = s.shrink_value(&50);
    assert!(shrinks.contains(&0));
    assert!(shrinks.iter().all(|&v| (-100..100).contains(&v)));
}

#[test]
fn int_range_shrinks_toward_lo_outside_zero() {
    let s = int_range(10i32..20);
    let shrinks = s.shrink_value(&18);
    assert_eq!(shrinks[0], 10);
    assert!(shrinks.iter().all(|&v| (10..20).contains(&v)));
}

#[test]
fn vec_of_respects_min_len() {
    let s = vec_of(int_range(0i32..10), 2..5);
    let mut rng = r();
    for _ in 0..50 {
        let v = s.new_value(&mut rng, 10).unwrap();
        assert!(v.len() >= 2 && v.len() < 5);
    }
    let shrinks = s.shrink_value(&vec![1, 2, 3, 4]);
    assert!(shrinks.iter().all(|v| v.len() >= 2));
}

#[test]
fn one_of_picks_among_choices() {
    let s = one_of(vec![just(1i32), just(2), just(3)]);
    let mut rng = r();
    let values: Vec<i32> = (0..200).map(|_| s.new_value(&mut rng, 0).unwrap()).collect();
    assert!(values.iter().all(|v| [1, 2, 3].contains(v)));
    assert!(values.contains(&1));
    assert!(values.contains(&2));
    assert!(values.contains(&3));
}

#[test]
fn weighted_skews_distribution() {
    let s = weighted_one_of(vec![(99, just(0i32)), (1, just(1))]);
    let mut rng = r();
    let zeros = (0..1000).filter(|_| s.new_value(&mut rng, 0).unwrap() == 0).count();
    assert!(zeros > 900, "expected ~99% zeros, got {zeros}");
}

#[test]
fn filter_rejects_predicate_failures() {
    let s = any::<i32>().filter(|n| *n % 2 == 0);
    let mut rng = r();
    for _ in 0..100 {
        let v = s.new_value(&mut rng, 50).unwrap();
        assert_eq!(v % 2, 0);
    }
}

#[test]
fn map_transforms_values() {
    let s = int_range(0i32..10).map(|n| n * n);
    let mut rng = r();
    for _ in 0..100 {
        let v = s.new_value(&mut rng, 0).unwrap();
        assert!((0..100).contains(&v));
        let root = (v as f64).sqrt() as i32;
        assert!(root * root == v);
    }
}

#[test]
fn boxed_strategy_allows_heterogeneous_one_of() {
    let s = one_of(vec![
        int_range(0i32..10).boxed(),
        just(100i32).boxed(),
        any::<i32>().filter(|n| *n < -1000).boxed(),
    ]);
    let mut rng = r();
    for _ in 0..50 {
        let _ = s.new_value(&mut rng, 50);
    }
}

#[test]
fn tuple_combines_two_strategies() {
    let s = tuple(int_range(0i32..10), int_range(100i32..200));
    let mut rng = r();
    let (a, b) = s.new_value(&mut rng, 0).unwrap();
    assert!((0..10).contains(&a));
    assert!((100..200).contains(&b));
}

#[test]
fn flat_map_generates_dependent_length() {
    let s = int_range(1usize..6).flat_map(|len| vec_of(any::<u8>(), len..len + 1));
    let mut rng = XorShift64::seed_from_u64(7);
    for _ in 0..100 {
        let v = s.new_value(&mut rng, 32).unwrap();
        assert!((1..=5).contains(&v.len()));
    }
}

#[test]
fn char_range_stays_in_range_and_skips_surrogates() {
    let s = char_range('a'..'z');
    let mut rng = XorShift64::seed_from_u64(13);
    for _ in 0..200 {
        let c = s.new_value(&mut rng, 16).unwrap();
        assert!(('a'..'z').contains(&c));
    }
}

#[test]
fn char_range_shrinks_toward_lo() {
    let s = char_range('a'..'z');
    let shrinks = s.shrink_value(&'m');
    assert_eq!(shrinks[0], 'a');
    assert!(shrinks.iter().all(|c| ('a'..'z').contains(c)));
}

#[test]
fn bytes_strategy_respects_length() {
    let s = bytes(4..8);
    let mut rng = XorShift64::seed_from_u64(17);
    for _ in 0..50 {
        let v = s.new_value(&mut rng, 16).unwrap();
        assert!(v.len() >= 4 && v.len() < 8);
    }
}

#[test]
fn int_range_shrink_lists_target_then_approach() {
    assert_eq!(int_range(10i32..20).shrink_value(&18), vec![10, 14, 16, 17]);
    assert_eq!(int_range(-100i32..100).shrink_value(&-9), vec![0, -5, -7, -8]);
    assert!(int_range(0u8..10).shrink_value(&0).is_empty());
    assert_eq!(int_range(0u8..4).shrink_value(&200), vec![0]);
}

#[test]
fn int_range_draws_lo_plus_word_mod_span() {
    let mut a = XorShift64::seed_from_u64(3);
    let mut b = XorShift64::seed_from_u64(3);
    let v = int_range(5u16..12).new_value(&mut a, 0).unwrap();
    let w = propcheck::Rng::next_u64(&mut b);
    assert_eq!(v as u64, 5 + w % 7);
}

#[test]
fn vec_of_shrink_lists_empty_removals_then_element_shrinks() {
    let s = vec_of(int_range(0u8..10), 0..5);
    assert_eq!(s.shrink_value(&vec![2, 0]), vec![vec![], vec![0], vec![2], vec![0, 0], vec![1, 0]]);
    let s = vec_of(int_range(0u8..10), 2..5);
    assert_eq!(s.shrink_value(&vec![1, 1]), vec![vec![0, 1], vec![1, 0]]);
}

#[test]
fn one_of_shrinks_through_every_choice() {
    let s = one_of(vec![int_range(0i32..10), int_range(5i32..10)]);
    assert_eq!(s.shrink_value(&8), vec![0, 4, 6, 7, 5, 7]);
}

#[test]
fn filter_shrink_keeps_only_accepted_candidates() {
    let s = int_range(0i32..100).filter(|n| n % 2 == 0);
    assert_eq!(s.shrink_value(&10), vec![0, 8]);
}

#[test]
fn filter_gives_up_after_max_tries() {
    let s = any::<u8>().filter(|_| false).max_tries(3);
    let mut rng = XorShift64::seed_from_u64(1);
    assert_eq!(s.new_value(&mut rng, 8), Err("Filter: predicate rejected every candidate after 3 tries".to_string()));
}

#[test]
fn just_returns_its_value_and_does_not_shrink() {
    let s = just(7u8);
    let mut rng = XorShift64::seed_from_u64(1);
    assert_eq!(s.new_value(&mut rng, 8), Ok(7));
    assert!(s.shrink_value(&7).is_empty());
}

#[test]
fn tuple_shrinks_first_then_second_component() {
    let s = tuple(int_range(0u8..10), int_range(0u8..10));
    assert_eq!(s.shrink_value(&(2, 1)), vec![(0, 1), (1, 1), (2, 0)]);
}

#[test]
fn char_range_shrink_lists_lo_then_approach() {
    assert_eq!(char_range('a'..'z').shrink_value(&'e'), vec!['a', 'c', 'd']);
}

#[test]
fn vec_of_shrinks_never_drop_below_min_len() {
    let s = vec_of(any::<u8>(), 2..6);
    let v: Vec<u8> = vec![9, 4, 7, 1];
    let cands = s.shrink_value(&v);
    assert!(!cands.is_empty());
    assert!(cands.iter().all(|c| c.len() >= 2));
    let at_min: Vec<u8> = vec![3, 5];
    assert!(s.shrink_value(&at_min).iter().all(|c| c.len() == 2));
}

#[test]
fn char_range_shrinks_stay_in_range() {
    let s = char_range('c'..'x');
    for c in ['c', 'd', 'm', 'w'] {
        for cand in s.shrink_value(&c) {
            assert!(('c'..'x').contains(&cand), "{cand:?} from {c:?}");
        }
    }
}

#[test]
fn one_of_hands_over_to_the_choice_at_the_first_word() {
    let make = || vec![int_range(0u32..10), int_range(100u32..110), int_range(1000u32..1010)];
    let choices = make();
    for seed in 1..50u64 {
        let s = one_of(make());
        let mut rng = XorShift64::seed_from_u64(seed);
        let got = s.new_value(&mut rng, 20);
        let mut replay = XorShift64::seed_from_u64(seed);
        let pick = (propcheck::Rng::next_u64(&mut replay) % 3) as usize;
        let expected = choices[pick].new_value(&mut replay, 20);
        assert_eq!(got, expected);
        assert_eq!(rng.state(), replay.state());
    }
}

#[test]
fn filter_rejecting_everything_draws_exactly_its_limit() {
    let s = int_range(0u32..1000).filter(|_| false);
    let mut rng = XorShift64::seed_from_u64(77);
    assert_eq!(s.new_value(&mut rng, 10), Err("Filter: predicate rejected every candidate after 256 tries".to_string()));
    let inner = int_range(0u32..1000);
    let mut replay = XorShift64::seed_from_u64(77);
    for _ in 0..256 {
        inner.new_value(&mut replay, 10);
    }
    assert_eq!(rng.state(), replay.state());
}

#[test]
fn compared_outputs_pass_when_equal_and_show_both_otherwise() {
    assert!(matches!(compare_outputs(&3u8, &3u8), PropResult::Pass));
    match compare_outputs(&vec![1u8], &vec![2u8]) {
        PropResult::Fail(m) => assert_eq!(m, "prop_assert_eq! failed\n  left:  [1]\n  right: [2]"),
        _ => panic!("expected a failure"),
    }
}
