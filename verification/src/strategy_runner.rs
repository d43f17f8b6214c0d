//! Runners driven by a [`Strategy`] instead of a type's [`Arbitrary`]
//! implementation, and differential testing of two implementations.
//!
//! [`Arbitrary`]: crate::arbitrary::Arbitrary
use vstd::prelude::*;
use crate::arbitrary::Arbitrary;
use crate::rng::XorShift64;
use crate::runner::{
    callable, case_outcome_of, case_size_for, debug_text, fails, CaseOutcome, CaseReport,
    Classifications, Config, IntoPropResult, Outcome, PropResult, run_loop, outcome_fits,
    arbitrary_draw, drawn_along, lemma_cases_weaken, lemma_drawn_push, lemma_goes_on_push,
    lemma_outcomes_push, lemma_run_described_weaken, no_failure, outcomes_of, report_of,
    reported_by, reported_via, run_cases, run_described, run_ends, run_goes_on, size_after, tally,
    passed_once, ran_once, spent_on,
};
use crate::rng::{Stream, outputs, seed_stream, lemma_seed_stream};
use vstd::std_specs::cmp::PartialEqSpec;
use crate::strategy::Strategy;
use crate::text::{push_decimal, string_push_str};

verus! {

/// `b` is one of the shrink candidates `strategy` lists for `a`.
pub open spec fn strategy_shrinks_into<S: Strategy>(strategy: S, a: S::Value, b: S::Value) -> bool {
    exists|cs: Seq<S::Value>| #[trigger] strategy.shrinks_to(a, cs) && cs.contains(b)
}

/// `chain` walks from its first value to its last, each value one of the
/// shrink candidates `strategy` lists for the value before it.
pub open spec fn strategy_chain<S: Strategy>(strategy: S, chain: Seq<S::Value>) -> bool {
    &&& chain.len() >= 1
    &&& forall|i: int| 0 <= i < chain.len() - 1 ==> strategy_shrinks_into(strategy, #[trigger] chain[i], chain[i + 1])
}

/// `b` is the first candidate, in the list `strategy` gives for `a`, on
/// which the property reported a failure: it ran without a failure on every
/// candidate before it.
pub open spec fn first_failing_strategy_step<S: Strategy, F: Fn(&S::Value) -> CaseReport>(
    strategy: S,
    prop: F,
    a: S::Value,
    b: S::Value,
) -> bool {
    exists|cs: Seq<S::Value>, j: int|
        #![trigger strategy.shrinks_to(a, cs), cs[j]]
        strategy.shrinks_to(a, cs) && 0 <= j < cs.len() && cs[j] == b && fails(prop, b)
            && forall|k: int| 0 <= k < j ==> passed_once(prop, #[trigger] cs[k])
}

/// The property ran without a failure on every candidate `strategy` lists
/// for `r`.
pub open spec fn strategy_locally_minimal<S: Strategy, F: Fn(&S::Value) -> CaseReport>(strategy: S, prop: F, r: S::Value) -> bool {
    exists|cs: Seq<S::Value>|
        #![trigger strategy.shrinks_to(r, cs)]
        strategy.shrinks_to(r, cs) && forall|k: int| 0 <= k < cs.len() ==> passed_once(prop, #[trigger] cs[k])
}

/// Walks the strategy's shrink candidates from a failing `initial`, taking
/// the first candidate that still fails at each step, within `max` tries of
/// the property.
pub fn shrink_with_strategy<S: Strategy, F: Fn(&S::Value) -> CaseReport>(
    strategy: &S,
    initial: S::Value,
    prop: &F,
    max: usize,
) -> (r: S::Value)
    requires
        strategy.wf(),
        forall|a: &S::Value| call_requires(*prop, (a,)),
    ensures
        r == initial || fails(*prop, r),
        exists|chain: Seq<S::Value>|
            strategy_chain(*strategy, chain) && chain[0] == initial && chain.last() == r
                && forall|i: int| 0 <= i < chain.len() - 1 ==> first_failing_strategy_step(*strategy, *prop, #[trigger] chain[i], chain[i + 1]),
        strategy_locally_minimal(*strategy, *prop, r) || exists|runs: Seq<S::Value>| #[trigger] spent_on(*prop, max, runs),
{
    let mut current = initial;
    let ghost mut chain: Seq<S::Value> = seq![initial];
    let mut attempts: usize = 0;
    let ghost mut runs: Seq<S::Value> = seq![];
    loop
        invariant
            strategy.wf(),
            forall|a: &S::Value| call_requires(*prop, (a,)),
            attempts <= max,
            runs.len() == attempts,
            forall|i: int| 0 <= i < runs.len() ==> ran_once(*prop, #[trigger] runs[i]),
            current == initial || fails(*prop, current),
            strategy_chain(*strategy, chain),
            chain[0] == initial,
            chain.last() == current,
            forall|i: int| 0 <= i < chain.len() - 1 ==> first_failing_strategy_step(*strategy, *prop, #[trigger] chain[i], chain[i + 1]),
        decreases max - attempts,
    {
        let mut candidates = strategy.shrink_value(&current);
        let ghost listed = candidates@;
        if candidates.len() == 0 {
            proof {
                assert(strategy.shrinks_to(current, listed));
            }
            return current;
        }
        let mut chosen: Option<usize> = None;
        let mut k: usize = 0;
        let start_attempts = attempts;
        let ghost mut hit: bool = false;
        while k < candidates.len()
            invariant_except_break
                chosen is None,
                !hit,
            invariant
                runs.len() == attempts,
                forall|i: int| 0 <= i < runs.len() ==> ran_once(*prop, #[trigger] runs[i]),
                hit ==> attempts >= max,
                forall|a: &S::Value| call_requires(*prop, (a,)),
                attempts <= max,
                start_attempts <= attempts,
                k <= candidates@.len(),
                candidates@ == listed,
                chosen matches Some(c) ==> c < candidates@.len() && fails(*prop, candidates@[c as int]) && attempts > start_attempts,
                forall|q: int| 0 <= q < k ==> passed_once(*prop, #[trigger] listed[q]),
            ensures
                chosen matches Some(c) ==> forall|q: int| 0 <= q < c ==> passed_once(*prop, #[trigger] listed[q]),
                chosen is None && !hit ==> forall|q: int| 0 <= q < listed.len() ==> passed_once(*prop, #[trigger] listed[q]),
                hit ==> attempts >= max,
            decreases candidates@.len() - k,
        {
            if attempts >= max {
                proof {
                    hit = true;
                }
                break;
            }
            attempts = attempts + 1;
            let report = prop(&candidates[k]);
            proof {
                assert(ran_once(*prop, listed[k as int]));
                let r0 = runs;
                runs = runs.push(listed[k as int]);
                assert forall|i: int| 0 <= i < runs.len() implies ran_once(*prop, #[trigger] runs[i]) by {
                    if i < r0.len() {
                        assert(runs[i] == r0[i]);
                    }
                }
                if !(report.outcome is Fail) {
                    assert(passed_once(*prop, listed[k as int]));
                }
            }
            let failed = match report.outcome {
                CaseOutcome::Fail(_) => true,
                _ => false,
            };
            if failed {
                chosen = Some(k);
                break;
            }
            k = k + 1;
        }
        match chosen {
            Some(c) => {
                let ghost before = chain;
                current = candidates.remove(c);
                proof {
                    assert(listed[c as int] == current);
                    assert(listed.contains(current));
                    assert(strategy.shrinks_to(before.last(), listed));
                    assert(first_failing_strategy_step(*strategy, *prop, before.last(), current));
                    chain = before.push(current);
                    assert forall|i: int| 0 <= i < chain.len() - 1 implies first_failing_strategy_step(*strategy, *prop, #[trigger] chain[i], chain[i + 1]) by {
                        if i < before.len() - 1 {
                            assert(chain[i] == before[i] && chain[i + 1] == before[i + 1]);
                        } else {
                            assert(chain[i] == before.last());
                        }
                    }
                    assert forall|i: int| 0 <= i < chain.len() - 1 implies strategy_shrinks_into(
                        *strategy,
                        #[trigger] chain[i],
                        chain[i + 1],
                    ) by {
                        if i < before.len() - 1 {
                            assert(chain[i] == before[i] && chain[i + 1] == before[i + 1]);
                        } else {
                            assert(chain[i] == before.last());
                            assert(strategy.shrinks_to(chain[i], listed) && listed.contains(chain[i + 1]));
                        }
                    }
                }
            },
            None => {
                proof {
                    if hit {
                        assert(spent_on(*prop, max, runs));
                    } else {
                        assert(strategy.shrinks_to(current, listed));
                        assert(strategy_locally_minimal(*strategy, *prop, current));
                    }
                }
                return current;
            },
        }
    }
}

/// Builds `head<n> (limit <max>)`.
fn limit_reason(head: &str, n: usize, max: usize) -> (r: String)
    ensures
        r@ == head@ + crate::text::decimal(n as nat) + " (limit "@ + crate::text::decimal(max as nat) + ")"@,
{
    let mut s = String::new();
    string_push_str(&mut s, head);
    push_decimal(&mut s, n as u64);
    string_push_str(&mut s, " (limit ");
    push_decimal(&mut s, max as u64);
    string_push_str(&mut s, ")");
    s
}

/// The facts every strategy-driven run outcome satisfies.
pub open spec fn strategy_outcome_fits<S: Strategy>(strategy: S, cfg: Config, r: Outcome<S::Value>) -> bool {
    let target: nat = if cfg.cases > 0 { cfg.cases as nat } else { 1 };
    match r {
        Outcome::Passed { cases, discarded, skipped, classifications } => {
            &&& cases == target
            &&& discarded <= cfg.max_discards
            &&& skipped <= cfg.max_skips
            &&& classifications.spec_total() == cases
        },
        Outcome::Failed { original, seed, attempt, discarded, skipped, classifications, .. } => {
            &&& strategy.produces(original)
            &&& seed == cfg.seed
            &&& 1 <= attempt <= target
            &&& discarded <= cfg.max_discards
            &&& skipped <= cfg.max_skips
            &&& classifications.spec_total() == attempt
        },
        Outcome::Aborted { reason, cases, discarded, skipped, seed, classifications } => {
            &&& seed == cfg.seed
            &&& cases < target
            &&& classifications.spec_total() == cases
            &&& {
                ||| (reason@ == "too many discards: "@ + crate::text::decimal(discarded as nat) + " (limit "@
                    + crate::text::decimal(cfg.max_discards as nat) + ")"@ && (discarded > cfg.max_discards || discarded == usize::MAX))
                ||| (reason@ == "too many skips: "@ + crate::text::decimal(skipped as nat) + " (limit "@
                    + crate::text::decimal(cfg.max_skips as nat) + ")"@ && (skipped > cfg.max_skips || skipped == usize::MAX))
                ||| strategy.fails_with(reason@)
            }
        },
    }
}

/// Drawing from `strategy` gives a value it can produce (the words it
/// reads are not followed).
pub open spec fn produced_by<S: Strategy>(strategy: S) -> spec_fn(Stream, Stream, usize, S::Value) -> bool {
    |before: Stream, after: Stream, size: usize, v: S::Value| strategy.produces(v)
}

/// How a strategy-driven run ends after the cases `trace`: as
/// [`run_ends`] says, or stopped, with the strategy's error as the reason,
/// because the strategy, which can give up, produced no value where the run
/// went on.
pub open spec fn strategy_run_ends<S: Strategy>(
    strategy: S,
    cfg: Config,
    trace: Seq<(S::Value, CaseOutcome)>,
    r: Outcome<S::Value>,
) -> bool {
    ||| run_ends(cfg, trace, r)
    ||| r matches Outcome::Aborted { reason, cases, discarded, skipped, .. } && {
        let t = tally(outcomes_of(trace));
        &&& strategy.fails_with(reason@)
        &&& !strategy.always_some()
        &&& run_goes_on(cfg, outcomes_of(trace))
        &&& cases == t.0 && discarded == t.1 && skipped == t.2
    }
}

/// What a run of `prop` (outcomes learnt through `rep`) on values of
/// `strategy` gives: its cases, each a value the strategy produces, were
/// drawn while the run went on, and they decide the outcome.
pub open spec fn strategy_run_described<S: Strategy>(
    strategy: S,
    cfg: Config,
    rep: spec_fn(S::Value, CaseOutcome) -> bool,
    r: Outcome<S::Value>,
) -> bool {
    exists|trace: Seq<(S::Value, CaseOutcome)>|
        #[trigger] run_cases(cfg, produced_by(strategy), rep, seed_stream(cfg.seed), trace)
            && strategy_run_ends(strategy, cfg, trace, r)
}

/// Runs `prop` on values of `strategy` until `cfg.cases` (at least one)
/// have passed, a case fails, the discards or skips exceed their limits, or
/// the strategy cannot produce a value. A failing case is shrunk with the
/// strategy.
pub fn run_strategy_loop<S: Strategy, F: Fn(&S::Value) -> CaseReport>(
    strategy: &S,
    cfg: &Config,
    prop: &F,
) -> (r: Outcome<S::Value>)
    where S::Value: Clone,
    requires
        strategy.wf(),
        forall|a: &S::Value| call_requires(*prop, (a,)),
        cfg.max_size < usize::MAX,
    ensures
        strategy_outcome_fits(*strategy, *cfg, r),
        strategy_run_described(*strategy, *cfg, reported_by(*prop), r),
        r matches Outcome::Failed { original, shrunk, .. } ==> fails(*prop, original) && (cloned(original, shrunk) || fails(*prop, shrunk)),
        r matches Outcome::Failed { original, shrunk, .. } ==> exists|chain: Seq<S::Value>|
            strategy_chain(*strategy, chain) && cloned(original, chain[0]) && chain.last() == shrunk,
{
    let ghost draw = produced_by(*strategy);
    let ghost rep = reported_by(*prop);
    let mut rng = XorShift64::seed_from_u64(cfg.seed);
    proof {
        lemma_seed_stream(cfg.seed, rng);
    }
    let target: usize = if cfg.cases > 0 { cfg.cases } else { 1 };
    let mut passed: usize = 0;
    let mut discarded: usize = 0;
    let mut skipped: usize = 0;
    let mut classifications = Classifications::new();
    let ghost mut trace: Seq<(S::Value, CaseOutcome)> = seq![];
    let ghost mut states: Seq<Stream> = seq![outputs(rng)];
    proof {
        assert(outcomes_of(trace) =~= Seq::<CaseOutcome>::empty());
        assert(drawn_along(*cfg, draw, rep, states, trace));
    }
    while passed < target
        invariant
            draw == produced_by(*strategy),
            rep == reported_by(*prop),
            states[0] == seed_stream(cfg.seed),
            states.last() == outputs(rng),
            drawn_along(*cfg, draw, rep, states, trace),
            forall|i: int| 0 <= i < trace.len() ==> run_goes_on(*cfg, #[trigger] outcomes_of(trace).take(i)),
            tally(outcomes_of(trace)) == (passed as nat, discarded as nat, skipped as nat),
            no_failure(outcomes_of(trace)),
            strategy.wf(),
            forall|a: &S::Value| call_requires(*prop, (a,)),
            cfg.max_size < usize::MAX,
            target == (if cfg.cases > 0 { cfg.cases } else { 1 }),
            passed <= target,
            discarded <= cfg.max_discards + 1,
            skipped <= cfg.max_skips + 1,
            classifications.spec_total() == passed,
            passed == target ==> discarded <= cfg.max_discards && skipped <= cfg.max_skips,
        decreases (target - passed) + (cfg.max_discards + 1 - discarded) + (cfg.max_skips + 1 - skipped),
    {
        if discarded > cfg.max_discards || discarded == usize::MAX {
            let reason = limit_reason("too many discards: ", discarded, cfg.max_discards);
            let r = Outcome::Aborted { reason, cases: passed, discarded, skipped, seed: cfg.seed, classifications };
            proof {
                assert(run_cases(*cfg, draw, rep, seed_stream(cfg.seed), trace) && strategy_run_ends(*strategy, *cfg, trace, r));
            }
            return r;
        }
        if skipped > cfg.max_skips || skipped == usize::MAX {
            let reason = limit_reason("too many skips: ", skipped, cfg.max_skips);
            let r = Outcome::Aborted { reason, cases: passed, discarded, skipped, seed: cfg.seed, classifications };
            proof {
                assert(run_cases(*cfg, draw, rep, seed_stream(cfg.seed), trace) && strategy_run_ends(*strategy, *cfg, trace, r));
            }
            return r;
        }
        proof {
            assert(run_goes_on(*cfg, outcomes_of(trace)));
        }
        let size = case_size_for(passed, cfg.max_size, target);
        let val = match strategy.new_value(&mut rng, size) {
            Ok(v) => v,
            Err(reason) => {
                let r = Outcome::Aborted { reason, cases: passed, discarded, skipped, seed: cfg.seed, classifications };
                proof {
                    assert(run_cases(*cfg, draw, rep, seed_stream(cfg.seed), trace) && strategy_run_ends(*strategy, *cfg, trace, r));
                }
                return r;
            },
        };
        let report = prop(&val);
        let ghost o = report.outcome;
        let ghost c = (val, o);
        proof {
            assert(rep(val, o));
            assert(draw(states.last(), outputs(rng), size_after(*cfg, outcomes_of(trace)), c.0));
            lemma_drawn_push(*cfg, draw, rep, states, trace, outputs(rng), c);
            lemma_goes_on_push(*cfg, trace, c);
            lemma_outcomes_push(trace, c);
            states = states.push(outputs(rng));
            trace = trace.push(c);
        }
        let CaseReport { outcome, labels } = report;
        match outcome {
            CaseOutcome::Pass => {
                passed = passed + 1;
                classifications.merge_case(labels);
                proof {
                    assert(no_failure(outcomes_of(trace)));
                }
            },
            CaseOutcome::Discard => {
                discarded = discarded + 1;
                proof {
                    assert(no_failure(outcomes_of(trace)));
                }
            },
            CaseOutcome::Skip(_) => {
                skipped = skipped + 1;
                proof {
                    assert(no_failure(outcomes_of(trace)));
                }
            },
            CaseOutcome::Fail(message) => {
                classifications.merge_case(labels);
                let shrunk = shrink_with_strategy(strategy, val.clone(), prop, cfg.max_shrinks);
                let r = Outcome::Failed {
                    original: val,
                    shrunk,
                    message,
                    seed: cfg.seed,
                    attempt: passed + 1,
                    discarded,
                    skipped,
                    classifications,
                };
                proof {
                    assert(run_cases(*cfg, draw, rep, seed_stream(cfg.seed), trace) && strategy_run_ends(*strategy, *cfg, trace, r));
                }
                return r;
            },
        }
    }
    let r = Outcome::Passed { cases: passed, discarded, skipped, classifications };
    proof {
        assert(run_cases(*cfg, draw, rep, seed_stream(cfg.seed), trace) && strategy_run_ends(*strategy, *cfg, trace, r));
    }
    r
}

/// Runs `prop` against values of `strategy` under `cfg` and returns the
/// [`Outcome`].
pub fn forall_strategy_with<S: Strategy, F: Fn(&S::Value) -> R, R: IntoPropResult>(
    strategy: S,
    cfg: Config,
    prop: F,
) -> (r: Outcome<S::Value>)
    where S::Value: Clone,
    requires
        strategy.wf(),
        forall|a: &S::Value| call_requires(prop, (a,)),
        cfg.max_size < usize::MAX,
    ensures
        strategy_outcome_fits(strategy, cfg, r),
        strategy_run_described(strategy, cfg, reported_via::<S::Value, R, F>(prop), r),
{
    let pr = &prop;
    let wrapped = |a: &S::Value| -> (c: CaseReport)
        requires
            callable(pr, a),
        ensures
            exists|res: R, p: PropResult| call_ensures(*pr, (a,), res) && res.converts_to(p) && c.outcome == report_of(p),
        {
            let res = pr(a);
            let p = res.into_prop_result();
            CaseReport { outcome: case_outcome_of(p), labels: Vec::new() }
        };
    let r = run_strategy_loop(&strategy, &cfg, &wrapped);
    proof {
        let rep2 = reported_via::<S::Value, R, F>(prop);
        assert forall|v: S::Value, o: CaseOutcome| #[trigger] reported_by(wrapped)(v, o) implies rep2(v, o) by {
            let c = choose|c: CaseReport| call_ensures(wrapped, (&v,), c) && c.outcome == o;
        }
        let trace = choose|trace: Seq<(S::Value, CaseOutcome)>|
            #[trigger] run_cases(cfg, produced_by(strategy), reported_by(wrapped), seed_stream(cfg.seed), trace)
                && strategy_run_ends(strategy, cfg, trace, r);
        lemma_cases_weaken(cfg, produced_by(strategy), reported_by(wrapped), rep2, seed_stream(cfg.seed), trace);
        assert(run_cases(cfg, produced_by(strategy), rep2, seed_stream(cfg.seed), trace));
    }
    r
}

/// The message of a disagreement between two implementations.
fn disagreement<O: core::fmt::Debug>(l: &O, r: &O) -> (m: String)
    ensures
        m@.take(22) == "prop_assert_eq! failed"@.take(22),
{
    let mut s = String::new();
    proof {
        reveal_strlit("prop_assert_eq! failed");
    }
    string_push_str(&mut s, "prop_assert_eq! failed");
    assert(s@.take(22) == "prop_assert_eq! failed"@.take(22));
    let lt = debug_text(l);
    let rt = debug_text(r);
    string_push_str(&mut s, "\n  left:  ");
    string_push_str(&mut s, lt.as_str());
    string_push_str(&mut s, "\n  right: ");
    string_push_str(&mut s, rt.as_str());
    assert(s@.take(22) == "prop_assert_eq! failed"@.take(22));
    s
}

/// Compares the outputs of two implementations on one input: a pass when
/// they are equal, otherwise a failure whose message shows both.
pub fn compare_outputs<O: PartialEq + core::fmt::Debug>(a: &O, b: &O) -> (r: PropResult)
    ensures
        r is Pass || r is Fail,
        O::obeys_eq_spec() ==> ((r is Pass) == a.eq_spec(b)),
        r matches PropResult::Fail(m) ==> m@.take(22) == "prop_assert_eq! failed"@.take(22),
{
    if a.eq(b) {
        PropResult::Pass
    } else {
        PropResult::Fail(disagreement(a, b))
    }
}

/// Running `lhs` and `rhs` on `v` can give outputs whose comparison has
/// the case outcome `o`: a pass or a failure, a pass exactly when the two
/// outputs are equal (as `O`'s `==` is specified, where it is).
pub open spec fn compared_by<I, O: PartialEq, F: Fn(&I) -> O, G: Fn(&I) -> O>(
    lhs: F,
    rhs: G,
) -> spec_fn(I, CaseOutcome) -> bool {
    |v: I, o: CaseOutcome|
        exists|a: O, b: O|
            #![trigger call_ensures(lhs, (&v,), a), call_ensures(rhs, (&v,), b)]
            call_ensures(lhs, (&v,), a) && call_ensures(rhs, (&v,), b) && (o is Pass || o is Fail)
                && (O::obeys_eq_spec() ==> ((o is Pass) == a.eq_spec(&b)))
}

/// Checks that `lhs` and `rhs` give equal outputs on every generated input:
/// a case fails exactly when the two outputs differ, with both outputs in
/// the message. `name` labels the run for reporting.
pub fn differential_with<I: Arbitrary + Clone + core::fmt::Debug, O: PartialEq + core::fmt::Debug, F: Fn(&I) -> O, G: Fn(&I) -> O>(
    name: &str,
    cfg: Config,
    lhs: F,
    rhs: G,
) -> (r: Outcome<I>)
    requires
        forall|a: &I| call_requires(lhs, (a,)),
        forall|a: &I| call_requires(rhs, (a,)),
        cfg.max_size < usize::MAX,
    ensures
        outcome_fits(cfg, Seq::empty(), r),
        run_described(cfg, Seq::empty(), arbitrary_draw::<I>(), compared_by::<I, O, F, G>(lhs, rhs), r),
{
    let l = &lhs;
    let rr = &rhs;
    let prop = |input: &I| -> (c: CaseReport)
        requires
            callable(l, input),
            callable(rr, input),
        ensures
            exists|x: O, y: O|
                #![trigger call_ensures(*l, (input,), x), call_ensures(*rr, (input,), y)]
                call_ensures(*l, (input,), x) && call_ensures(*rr, (input,), y) && (c.outcome is Pass || c.outcome is Fail)
                    && (O::obeys_eq_spec() ==> ((c.outcome is Pass) == x.eq_spec(&y))),
        {
            let a = l(input);
            let b = rr(input);
            let c = match compare_outputs(&a, &b) {
                PropResult::Fail(m) => CaseReport { outcome: CaseOutcome::Fail(m), labels: Vec::new() },
                _ => CaseReport { outcome: CaseOutcome::Pass, labels: Vec::new() },
            };
            assert(O::obeys_eq_spec() ==> ((c.outcome is Pass) == a.eq_spec(&b)));
            c
        };
    let none: Vec<u64> = Vec::new();
    let r = run_loop(&cfg, &prop, none.as_slice());
    proof {
        let rep2 = compared_by::<I, O, F, G>(lhs, rhs);
        assert(none@ =~= Seq::<u64>::empty());
        assert forall|v: I, o: CaseOutcome| #[trigger] reported_by(prop)(v, o) implies rep2(v, o) by {
            let c = choose|c: CaseReport| call_ensures(prop, (&v,), c) && c.outcome == o;
        }
        lemma_run_described_weaken(cfg, Seq::empty(), arbitrary_draw::<I>(), reported_by(prop), rep2, r);
    }
    r
}

} // verus!
