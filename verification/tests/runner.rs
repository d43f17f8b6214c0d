use propcheck::regression::{append_seed_to, parse_seeds, render_seeds, sanitize, MAX_SEEDS_PER_FILE};
use propcheck::strategy::{any, int_range, just, one_of, str, vec_of, weighted_one_of, BoxedStrategy, Strategy, StrategyExt};
use propcheck::{
    differential_with, forall_strategy_with, forall_with, run_loop, CaseOutcome, CaseReport, Config, Outcome,
    ShrinkMode,
};
use std::cell::{Cell, RefCell};
use std::collections::HashSet;

/// The configuration the runner uses by default, with the given seed and no
/// regression replay.
fn no_replay_cfg(seed: u64) -> Config {
    Config {
        cases: 100,
        seed,
        max_shrinks: 1024,
        max_size: 100,
        max_discards: 1000,
        max_skips: 1000,
        silence_panic_hook: false,
        regression_replay: false,
        shrink_mode: ShrinkMode::Greedy,
    }
}

fn cfg(seed: u64) -> Config {
    Config { cases: 200, seed, max_shrinks: 512, max_size: 50, max_discards: 5000, max_skips: 5000, ..no_replay_cfg(seed) }
}

#[test]
fn outcome_accessors_work_for_each_variant() {
    let pass = forall_with(no_replay_cfg(7), |_: &u8| -> bool { true });
    assert!(pass.is_passed());
    assert!(!pass.is_failed());
    assert!(!pass.is_aborted());
    assert!(pass.failure_message().is_none());
    assert!(pass.shrunk().is_none());
    assert_eq!(pass.discarded(), 0);
    assert_eq!(pass.skipped(), 0);
    assert!(pass.seed().is_none());

    let fail = forall_with(no_replay_cfg(8), |&n: &u8| n < 100);
    assert!(fail.is_failed());
    assert!(fail.failure_message().is_some());
    assert!(fail.shrunk().is_some());
    assert_eq!(*fail.shrunk().unwrap(), 100);
    assert!(fail.seed().is_some());
}

#[test]
fn prop_skip_increments_skip_counter_not_discard() {
    let prop = |&n: &u8| CaseReport {
        outcome: if n > 200 { CaseOutcome::Skip("only test small inputs in CI".to_string()) } else { CaseOutcome::Pass },
        labels: Vec::new(),
    };
    let outcome = run_loop(&no_replay_cfg(4), &prop, &[]);
    assert!(outcome.is_passed());
    assert!(outcome.skipped() > 0, "expected some skips");
}

#[test]
fn too_many_skips_aborts_with_distinct_message() {
    let cfg = Config { cases: 50, max_skips: 20, max_discards: 100_000, ..no_replay_cfg(0) };
    let prop = |_n: &u8| CaseReport { outcome: CaseOutcome::Skip("env not ready".to_string()), labels: Vec::new() };
    let outcome = run_loop(&cfg, &prop, &[]);
    assert!(outcome.is_aborted());
    let msg = match &outcome {
        Outcome::Aborted { reason, .. } => reason.clone(),
        _ => unreachable!(),
    };
    assert!(msg.contains("skip"), "expected reason to mention skips, got: {msg}");
}

#[test]
fn ascii_alphanumeric_strategy_drives_property() {
    let outcome = forall_strategy_with(str::ascii_alphanumeric(1..20), no_replay_cfg(9), |s: &String| -> bool {
        s.chars().all(|c| c.is_ascii_alphanumeric()) && !s.is_empty()
    });
    assert!(outcome.is_passed());
}

#[test]
fn string_strategy_shrinks_to_canonical_chars() {
    let outcome = forall_strategy_with(str::ascii_digits(1..30), no_replay_cfg(10), |s: &String| !s.contains('5'));
    assert!(outcome.is_failed());
    assert_eq!(outcome.shrunk().unwrap(), "5");
}

#[test]
fn hex_string_strategy_only_emits_hex_chars() {
    let outcome = forall_strategy_with(str::hex_string(0..10), no_replay_cfg(11), |s: &String| {
        s.chars().all(|c| c.is_ascii_hexdigit())
    });
    assert!(outcome.is_passed());
}

#[test]
fn five_tuple_arbitrary_works() {
    let outcome = forall_with(no_replay_cfg(14), |&(a, b, c, d, e): &(u8, u8, u8, u8, u8)| {
        a == a && b == b && c == c && d == d && e == e
    });
    assert!(outcome.is_passed());
}

#[test]
fn eight_tuple_arbitrary_works() {
    let outcome = forall_with(no_replay_cfg(15), |&(a, b, c, d, e, f, g, h): &(u8, u8, u8, u8, u8, u8, u8, u8)| {
        let _ = (a, b, c, d, e, f, g, h);
        true
    });
    assert!(outcome.is_passed());
}

fn slow_sort(v: &[u8]) -> Vec<u8> {
    let mut v = v.to_vec();
    v.sort();
    v
}

fn fast_sort(v: &[u8]) -> Vec<u8> {
    let mut v = v.to_vec();
    v.sort_unstable();
    v
}

fn buggy_sort(v: &[u8]) -> Vec<u8> {
    let mut v = v.to_vec();
    v.sort();
    v.pop();
    v
}

#[test]
fn differential_passes_when_implementations_agree() {
    let outcome = differential_with("sort agreement", no_replay_cfg(1), |v: &Vec<u8>| slow_sort(v), |v: &Vec<u8>| fast_sort(v));
    assert!(outcome.is_passed());
}

#[test]
fn differential_reports_disagreement_with_both_outputs() {
    let outcome = differential_with("buggy", no_replay_cfg(2), |v: &Vec<u8>| slow_sort(v), |v: &Vec<u8>| buggy_sort(v));
    assert!(outcome.is_failed());
    let msg = outcome.failure_message().unwrap();
    assert!(msg.contains("left:") && msg.contains("right:"));
    assert_eq!(outcome.shrunk().unwrap().len(), 1);
}

#[test]
fn exhaustive_shrink_mode_runs_to_completion() {
    let cfg = Config { shrink_mode: ShrinkMode::Exhaustive, ..no_replay_cfg(3) };
    let outcome = forall_with(cfg, |&n: &u32| n < 100);
    assert!(outcome.is_failed());
    assert_eq!(*outcome.shrunk().unwrap(), 100);
}

#[test]
fn exhaustive_shrink_mode_for_nested_data() {
    let outcome_greedy = forall_with(Config { shrink_mode: ShrinkMode::Greedy, ..no_replay_cfg(4) }, |v: &Vec<u32>| {
        v.iter().all(|n| *n <= 50)
    });
    let outcome_exhaustive = forall_with(Config { shrink_mode: ShrinkMode::Exhaustive, ..no_replay_cfg(4) }, |v: &Vec<u32>| {
        v.iter().all(|n| *n <= 50)
    });
    assert_eq!(*outcome_greedy.shrunk().unwrap(), vec![51]);
    assert_eq!(*outcome_exhaustive.shrunk().unwrap(), vec![51]);
}

#[test]
fn strategy_runner_forall_strategy_runs_with_constrained_generator() {
    let s = int_range(0i32..100);
    let c = Config { cases: 100, max_shrinks: 256, max_size: 50, max_discards: 1000, max_skips: 1000, ..no_replay_cfg(1) };
    match forall_strategy_with(s, c, |&n: &i32| (0..100).contains(&n)) {
        Outcome::Passed { cases, .. } => assert_eq!(cases, 100),
        other => panic!("expected pass, got {other:?}"),
    }
}

#[test]
fn strategy_runner_forall_strategy_shrinks_via_strategy() {
    let s = int_range(0i32..1000);
    let c = Config { cases: 100, max_shrinks: 256, max_size: 50, max_discards: 1000, max_skips: 1000, ..no_replay_cfg(2) };
    let outcome = forall_strategy_with(s, c, |&n: &i32| n < 500);
    match outcome {
        Outcome::Failed { shrunk, .. } => assert_eq!(shrunk, 500),
        other => panic!("expected failure, got {other:?}"),
    }
}

#[test]
fn strategy_runner_prop_oneof_uniform_compiles_and_runs() {
    let s = one_of(vec![just(1i32).boxed(), just(2).boxed(), just(3).boxed()]);
    let seen = RefCell::new(HashSet::new());
    let c = Config { cases: 100, max_shrinks: 256, max_size: 50, max_discards: 1000, max_skips: 1000, ..no_replay_cfg(3) };
    match forall_strategy_with(s, c, |&n: &i32| {
        seen.borrow_mut().insert(n);
        (1..=3).contains(&n)
    }) {
        Outcome::Passed { .. } => {}
        other => panic!("expected pass, got {other:?}"),
    }
    assert!(seen.borrow().len() > 1, "expected variety");
}

#[test]
fn strategy_runner_prop_oneof_weighted_compiles_and_runs() {
    let s = weighted_one_of(vec![(99u32, just(0i32).boxed()), (1u32, just(1).boxed())]);
    let zeros = Cell::new(0);
    let ones = Cell::new(0);
    let c = Config { cases: 100, max_shrinks: 256, max_size: 50, max_discards: 1000, max_skips: 1000, ..no_replay_cfg(4) };
    let _ = forall_strategy_with(s, c, |&n: &i32| {
        if n == 0 {
            zeros.set(zeros.get() + 1)
        } else {
            ones.set(ones.get() + 1)
        }
        true
    });
    assert!(zeros.get() > ones.get() * 5, "expected heavy bias toward 0");
}

#[test]
fn flat_map_drives_property() {
    let s = int_range(1usize..5).flat_map(|len| vec_of(int_range(0i32..10), len..len + 1));
    let outcome = forall_strategy_with(s, no_replay_cfg(11), |v: &Vec<i32>| {
        !v.is_empty() && v.iter().all(|&n| (0..10).contains(&n))
    });
    assert!(outcome.is_passed());
}

#[derive(Debug, Clone, PartialEq)]
enum Json {
    Null,
    Bool(bool),
    Num(i32),
    Array(Vec<Json>),
}

fn json_strategy() -> BoxedStrategy<Json> {
    propcheck::strategy::recursive(
        one_of(vec![
            just(Json::Null).boxed(),
            any::<bool>().map(Json::Bool).boxed(),
            int_range(-100i32..100).map(Json::Num).boxed(),
        ]),
        |child: BoxedStrategy<Json>| {
            one_of(vec![
                just(Json::Null).boxed(),
                int_range(-100i32..100).map(Json::Num).boxed(),
                vec_of(child, 0..4).map(Json::Array).boxed(),
            ])
        },
        3,
    )
}

fn depth_of(j: &Json) -> usize {
    match j {
        Json::Null | Json::Bool(_) | Json::Num(_) => 1,
        Json::Array(xs) => 1 + xs.iter().map(depth_of).max().unwrap_or(0),
    }
}

#[test]
fn prop_recursive_builds_tree_strategy() {
    let s = json_strategy();
    let mut rng = propcheck::XorShift64::seed_from_u64(31);
    let mut max_depth_seen = 0;
    for _ in 0..200 {
        let v = s.new_value(&mut rng, 8).unwrap();
        max_depth_seen = max_depth_seen.max(depth_of(&v));
    }
    assert!(max_depth_seen <= 4, "expected depth <= 4, saw {max_depth_seen}");
    let mut rng = propcheck::XorShift64::seed_from_u64(31);
    let any_array = (0..200).any(|_| matches!(s.new_value(&mut rng, 8).unwrap(), Json::Array(_)));
    assert!(any_array, "expected at least one Array variant");
}

#[test]
fn prop_recursive_strategy_drives_property() {
    let s = json_strategy();
    let outcome = forall_strategy_with(s, no_replay_cfg(37), |j: &Json| depth_of(j) >= 1);
    assert!(outcome.is_passed());
}

#[test]
fn passes_for_true_property() {
    match forall_with(cfg(1), |&(a, b): &(i32, i32)| a.wrapping_add(b) == b.wrapping_add(a)) {
        Outcome::Passed { cases, .. } => assert_eq!(cases, 200),
        other => panic!("expected pass, got {other:?}"),
    }
}

#[test]
fn unit_return_means_pass() {
    let out: Outcome<u32> = forall_with(cfg(5), |_n: &u32| {});
    match out {
        Outcome::Passed { cases, .. } => assert_eq!(cases, 200),
        other => panic!("expected pass, got {other:?}"),
    }
}

#[test]
fn result_err_means_fail() {
    let out: Outcome<u8> = forall_with(cfg(6), |&n: &u8| -> Result<(), String> {
        if n > 50 { Err(format!("too big: {n}")) } else { Ok(()) }
    });
    match out {
        Outcome::Failed { message, .. } => assert!(message.contains("too big")),
        other => panic!("expected fail, got {other:?}"),
    }
}

#[test]
fn shrinks_to_small_counterexample() {
    let outcome = forall_with(cfg(42), |v: &Vec<i32>| !v.contains(&7));
    match outcome {
        Outcome::Failed { shrunk, .. } => assert_eq!(shrunk, vec![7]),
        other => panic!("expected failure, got {other:?}"),
    }
}

#[test]
fn same_seed_reproduces_failure() {
    let a = forall_with(cfg(123), |&n: &u16| n < 200);
    let b = forall_with(cfg(123), |&n: &u16| n < 200);
    match (a, b) {
        (Outcome::Failed { original: o1, attempt: a1, .. }, Outcome::Failed { original: o2, attempt: a2, .. }) => {
            assert_eq!(o1, o2);
            assert_eq!(a1, a2);
        }
        _ => panic!("both should fail at the same case"),
    }
}

#[test]
fn discards_are_counted_and_abort_past_the_limit() {
    let prop = |&n: &i32| CaseReport {
        outcome: if n > 0 { CaseOutcome::Pass } else { CaseOutcome::Discard },
        labels: Vec::new(),
    };
    let outcome = run_loop(&Config { cases: 50, ..cfg(17) }, &prop, &[]);
    match outcome {
        Outcome::Passed { cases, discarded, .. } => {
            assert_eq!(cases, 50);
            assert!(discarded > 0);
        }
        other => panic!("expected pass, got {other:?}"),
    }
    let all_discard = |_: &i32| CaseReport { outcome: CaseOutcome::Discard, labels: Vec::new() };
    let outcome = run_loop(&Config { cases: 100, max_discards: 50, ..cfg(19) }, &all_discard, &[]);
    match outcome {
        Outcome::Aborted { discarded, reason, cases, .. } => {
            assert_eq!(discarded, 51);
            assert_eq!(cases, 0);
            assert!(reason.starts_with("too many discards: 51 (limit 50)"));
        }
        other => panic!("expected abort, got {other:?}"),
    }
}

#[test]
fn classification_labels_are_counted_per_case() {
    let prop = |&n: &i32| {
        let mut labels = Vec::new();
        if n == 0 {
            labels.push("zero".to_string());
        }
        if n > 0 {
            labels.push("positive".to_string());
            labels.push("positive".to_string());
        }
        if n < 0 {
            labels.push("negative".to_string());
        }
        CaseReport { outcome: CaseOutcome::Pass, labels }
    };
    let outcome = run_loop(&cfg(23), &prop, &[]);
    let c = outcome.classifications();
    assert_eq!(c.total(), 200);
    let labels: Vec<&str> = c.counts().iter().map(|(l, _)| l.as_str()).collect();
    let mut sorted = labels.clone();
    sorted.sort();
    assert_eq!(labels, sorted);
    assert!(labels.contains(&"positive") && labels.contains(&"negative"));
    let sum: usize = c.counts().iter().map(|(_, n)| *n).sum();
    assert!(sum <= 200);
}

#[test]
fn regression_seed_is_replayed_first() {
    let prop = |&n: &u8| CaseReport {
        outcome: if n >= 200 { CaseOutcome::Fail("big".to_string()) } else { CaseOutcome::Pass },
        labels: Vec::new(),
    };
    let first = run_loop(&cfg(77), &prop, &[]);
    let seed = match &first {
        Outcome::Failed { seed, .. } => *seed,
        other => panic!("expected failure, got {other:?}"),
    };
    assert_eq!(seed, 77);
    let passing = |_: &u8| CaseReport { outcome: CaseOutcome::Pass, labels: Vec::new() };
    let replay = run_loop(&cfg(1), &passing, &[5, 6]);
    assert!(replay.is_passed());
    let always_fail = |_: &u8| CaseReport { outcome: CaseOutcome::Fail("x".to_string()), labels: Vec::new() };
    let replay = run_loop(&cfg(1), &always_fail, &[5, 6]);
    match replay {
        Outcome::Failed { seed, attempt, message, .. } => {
            assert_eq!(seed, 5);
            assert_eq!(attempt, 0);
            assert_eq!(message, "regression seed 5 reproduced: x");
        }
        other => panic!("expected failure, got {other:?}"),
    }
}

#[test]
fn sanitize_keeps_safe_chars() {
    assert_eq!(sanitize("ok_test-1"), "ok_test-1");
    assert_eq!(sanitize("a::b/c d"), "a__b_c_d");
    assert_eq!(sanitize(""), "_");
}

#[test]
fn appending_a_seed_is_bounded_and_skips_duplicates() {
    assert_eq!(append_seed_to(&vec![1, 2], 1), None);
    assert_eq!(append_seed_to(&vec![1, 2], 3), Some(vec![1, 2, 3]));
    let full: Vec<u64> = (0..MAX_SEEDS_PER_FILE as u64).collect();
    let next = append_seed_to(&full, 1000).unwrap();
    assert_eq!(next.len(), MAX_SEEDS_PER_FILE);
    assert_eq!(next[0], 1);
    assert_eq!(*next.last().unwrap(), 1000);
    assert_eq!(
        render_seeds(&vec![7, 42]),
        "# Regression seeds replayed by propcheck. Add or remove freely.\n7\n42\n"
    );
}

#[test]
fn parse_seeds_skips_comments_blanks_and_duplicates() {
    assert_eq!(parse_seeds("# comment\n1\n2\n1\n"), vec![1, 2]);
    assert_eq!(
        parse_seeds(" 42 \r\n+7\n-3\nabc\n\n  # 9\n18446744073709551616\n18446744073709551615"),
        vec![42, 7, 18446744073709551615]
    );
    assert!(parse_seeds("").is_empty());
    assert!(parse_seeds("+\n\t\n#1").is_empty());
}

#[test]
fn rendered_seeds_read_back() {
    let seeds = vec![5u64, 3, 0, 18446744073709551615];
    assert_eq!(parse_seeds(&render_seeds(&seeds)), seeds);
    assert!(parse_seeds(&render_seeds(&vec![])).is_empty());
}

#[test]
fn exhausted_filter_aborts_with_its_tries_count() {
    let outcome = forall_strategy_with(any::<i32>().filter(|_| false).max_tries(3), no_replay_cfg(5), |_: &i32| true);
    match outcome {
        Outcome::Aborted { reason, cases, .. } => {
            assert_eq!(reason, "Filter: predicate rejected every candidate after 3 tries");
            assert_eq!(cases, 0);
        }
        other => panic!("expected an abort, got {other:?}"),
    }
}

#[test]
fn a_label_is_recorded_once_per_case() {
    let mut labels: Vec<String> = Vec::new();
    propcheck::runner::add_label(&mut labels, "small".to_string());
    propcheck::runner::add_label(&mut labels, "even".to_string());
    propcheck::runner::add_label(&mut labels, "small".to_string());
    assert_eq!(labels, vec!["small".to_string(), "even".to_string()]);
}
