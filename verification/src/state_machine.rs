//! Model-based testing of stateful systems.
//!
//! A [`StateMachine`] describes the state under test (often a pair of the
//! system and a reference model), the operations to interleave, how one
//! operation changes the state, and the invariant that must hold after
//! every operation. The runner generates random operation sequences,
//! applies them in order, reports the first sequence after which the
//! invariant fails, and shrinks it by removing operations.
use vstd::prelude::*;
use crate::arbitrary::Arbitrary;
use crate::rng::{Rng, Stream, XorShift64, outputs, seed_stream, lemma_seed_stream};
use crate::arbitrary::generated_in_turn;
use crate::runner::{debug_text, Classifications, Config, Outcome};
use crate::text::{decimal, push_decimal, string_push_str};

verus! {

/// A system under test, described by its state, its operations and its
/// invariant.
///
/// Each method's contract is stated over a relation that the machine may
/// refine: a machine that states nothing about its state keeps the defaults,
/// which hold of every value, and the runner's contracts then speak of every
/// run the machine could make.
pub trait StateMachine {
    /// The state, typically the system under test paired with a model.
    type State: Clone + core::fmt::Debug;
    /// One step applied to the state.
    type Operation: Arbitrary + Clone + core::fmt::Debug;

    /// `s` can be the state [`StateMachine::initial_state`] hands out.
    open spec fn starts_at(s: Self::State) -> bool {
        true
    }

    /// The state every generated run starts from.
    fn initial_state() -> (r: Self::State)
        ensures
            Self::starts_at(r),
    ;

    /// Applying `op` to `before` can leave `after`.
    open spec fn steps_to(before: Self::State, op: Self::Operation, after: Self::State) -> bool {
        true
    }

    /// Applies `op` to `state`.
    fn execute(state: &mut Self::State, op: &Self::Operation)
        ensures
            Self::steps_to(*old(state), *op, *final(state)),
    ;

    /// `r` can be the verdict of [`StateMachine::check_invariant`] on `state`.
    open spec fn judges(state: Self::State, r: Result<(), String>) -> bool {
        true
    }

    /// `Ok(())` when the state is consistent; otherwise why it is not.
    fn check_invariant(state: &Self::State) -> (r: Result<(), String>)
        ensures
            Self::judges(*state, r),
    ;
}

/// `states` is a run of `ops` from an initial state in which the invariant
/// held after every operation.
pub open spec fn runs_clean<M: StateMachine>(ops: Seq<M::Operation>, states: Seq<M::State>) -> bool {
    &&& states.len() == ops.len() + 1
    &&& M::starts_at(states[0])
    &&& forall|j: int| 0 <= j < ops.len() ==> #[trigger] M::steps_to(states[j], ops[j], states[j + 1]) && M::judges(states[j + 1], Ok(()))
}

/// The run `states` of the first `k` operations of `ops` kept the invariant,
/// operation `k` then led to `after`, the invariant failed there for the
/// reason `why`, and `m` reports it (the operation shown as `shown`).
pub open spec fn fails_at<M: StateMachine>(
    ops: Seq<M::Operation>,
    k: int,
    states: Seq<M::State>,
    after: M::State,
    why: String,
    shown: Seq<char>,
    m: String,
) -> bool {
    &&& 0 <= k < ops.len()
    &&& runs_clean::<M>(ops.take(k), states)
    &&& M::steps_to(states.last(), ops[k], after)
    &&& M::judges(after, Err(why))
    &&& m@ == violation_text(k as nat, shown, why@)
}

/// `r` is a result [`simulate`] can give for `ops`: `Ok` after a run that
/// kept the invariant throughout, or the report of the first operation
/// after which it failed.
pub open spec fn simulated<M: StateMachine>(ops: Seq<M::Operation>, r: Result<(), String>) -> bool {
    &&& r is Ok ==> exists|states: Seq<M::State>| #[trigger] runs_clean::<M>(ops, states)
    &&& r is Err ==> simulation_fails::<M>(ops, r->Err_0)
}

/// The simulation of `ops` stops at a violation that `m` reports.
pub open spec fn simulation_fails<M: StateMachine>(ops: Seq<M::Operation>, m: String) -> bool {
    exists|k: int, states: Seq<M::State>, after: M::State, why: String, shown: Seq<char>|
        #[trigger] fails_at::<M>(ops, k, states, after, why, shown, m)
}

/// The number of operations drawn from the word `w` for `max_len`:
/// `1 + (w mod (max(max_len, 2) - 1))`.
pub open spec fn sequence_len(w: u64, max_len: usize) -> int {
    1 + w as int % ((if max_len > 2 { max_len as int } else { 2 }) - 1)
}

/// `ops` is what [`generate_sequence`] hands out for `max_len` when it
/// starts on the stream `before` and leaves `after`: its length is drawn
/// from the first word, then the operations are generated in turn, each
/// with size `max_len`.
pub open spec fn sequence_from<M: StateMachine>(before: Stream, after: Stream, max_len: usize, ops: Seq<M::Operation>) -> bool {
    &&& ops.len() == sequence_len(before(0), max_len)
    &&& exists|states: Seq<Stream>|
        #![trigger generated_in_turn(states, max_len, ops)]
        {
            &&& generated_in_turn(states, max_len, ops)
            &&& states[0] == (|k: nat| before(k + 1))
            &&& states.last() == after
        }
}

/// A sequence of `1 + (w mod (max(max_len, 2) - 1))` operations, where `w`
/// is the next word, each generated with size `max_len`.
pub fn generate_sequence<M: StateMachine>(rng: &mut XorShift64, max_len: usize) -> (r: Vec<M::Operation>)
    ensures
        sequence_from::<M>(outputs(*old(rng)), outputs(*final(rng)), max_len, r@),
        1 <= r@.len() < (if max_len > 2 { max_len as int } else { 2 }),
{
    let ghost g0 = *rng;
    let hi = if max_len > 2 { max_len } else { 2 };
    let len = rng.gen_range_usize(1, hi);
    let mut out: Vec<M::Operation> = Vec::new();
    let ghost mut states: Seq<Stream> = seq![outputs(*rng)];
    proof {
        assert(outputs(*rng) == (|k: nat| outputs(g0)(k + 1))) by {
            assert(outputs(*rng) =~= (|k: nat| outputs(g0)(k + 1)));
        }
    }
    let mut i: usize = 0;
    while i < len
        invariant
            i <= len,
            out@.len() == i,
            generated_in_turn(states, max_len, out@),
            states[0] == (|k: nat| outputs(g0)(k + 1)),
            states.last() == outputs(*rng),
        decreases len - i,
    {
        let ghost s0 = *rng;
        let x = M::Operation::arbitrary(rng, max_len);
        proof {
            let ns = states.push(outputs(*rng));
            assert forall|j: int| 0 <= j < out@.push(x).len() implies M::Operation::arbitrary_from(
                #[trigger] ns[j],
                ns[j + 1],
                max_len,
                out@.push(x)[j],
            ) by {
                if j < out@.len() {
                    assert(ns[j] == states[j] && ns[j + 1] == states[j + 1]);
                    assert(out@.push(x)[j] == out@[j]);
                } else {
                    assert(ns[j] == outputs(s0));
                }
            }
            states = ns;
        }
        out.push(x);
        i = i + 1;
    }
    proof {
        assert(outputs(g0)(0) == g0.nth_output(0));
        assert(generated_in_turn(states, max_len, out@));
    }
    out
}

/// The message of an invariant violation after operation `i`, shown as
/// `op`, for the reason `why`.
pub open spec fn violation_text(i: nat, op: Seq<char>, why: Seq<char>) -> Seq<char> {
    "invariant violated after op #"@ + decimal(i) + " ("@ + op + "): "@ + why
}

/// The message of an invariant violation; see [`violation_text`].
pub fn violation_message(i: usize, op: &str, why: &str) -> (m: String)
    ensures
        m@ == violation_text(i as nat, op@, why@),
{
    let mut m = String::new();
    string_push_str(&mut m, "invariant violated after op #");
    push_decimal(&mut m, i as u64);
    string_push_str(&mut m, " (");
    string_push_str(&mut m, op);
    string_push_str(&mut m, "): ");
    string_push_str(&mut m, why);
    m
}

/// Applies the operations in order from the initial state and checks the
/// invariant after each; the first violation is returned as
/// `invariant violated after op #<i> (<op>): <reason>`. What the state and
/// the invariant are is up to the machine; with no operation nothing is
/// checked.
pub fn simulate<M: StateMachine>(sequence: &[M::Operation]) -> (r: Result<(), String>)
    ensures
        simulated::<M>(sequence@, r),
{
    let mut state = M::initial_state();
    let ghost mut states: Seq<M::State> = seq![state];
    let mut i: usize = 0;
    proof {
        assert(sequence@.take(0) == Seq::<M::Operation>::empty());
    }
    while i < sequence.len()
        invariant
            i <= sequence@.len(),
            runs_clean::<M>(sequence@.take(i as int), states),
            states.last() == state,
        decreases sequence@.len() - i,
    {
        let op = &sequence[i];
        let ghost before = state;
        M::execute(&mut state, op);
        let verdict = M::check_invariant(&state);
        proof {
            assert(M::steps_to(before, sequence@[i as int], state));
            assert(M::judges(state, verdict));
            assert(states.len() == i + 1);
        }
        match verdict {
            Ok(()) => {
                proof {
                    assert(verdict is Ok);
                    assert(verdict->Ok_0 == ());
                    assert(verdict == Ok::<(), String>(()));
                    let ops0 = sequence@.take(i as int);
                    let ops1 = sequence@.take(i + 1);
                    let s1 = states.push(state);
                    assert forall|j: int| 0 <= j < ops1.len() implies #[trigger] M::steps_to(s1[j], ops1[j], s1[j + 1]) && M::judges(s1[j + 1], Ok(())) by {
                        if j < i {
                            assert(ops1[j] == ops0[j]);
                            assert(s1[j] == states[j] && s1[j + 1] == states[j + 1]);
                            assert(M::steps_to(states[j], ops0[j], states[j + 1]));
                        } else {
                            assert(ops1[j] == sequence@[i as int]);
                            assert(s1[j] == before && s1[j + 1] == state);
                        }
                    }
                    states = s1;
                }
            },
            Err(why) => {
                let shown = debug_text(op);
                let m = violation_message(i, shown.as_str(), why.as_str());
                proof {
                    assert(verdict == Err::<(), String>(why));
                    assert(fails_at::<M>(sequence@, i as int, states, state, why, shown@, m));
                    assert(simulation_fails::<M>(sequence@, m));
                }
                return Err(m);
            },
        }
        i = i + 1;
    }
    proof {
        assert(sequence@.take(i as int) == sequence@);
        assert(runs_clean::<M>(sequence@, states));
    }
    Ok(())
}

/// `c` holds clones of the operations of `initial` at the positions `idx`,
/// in order.
pub open spec fn picked<T: Clone>(initial: Seq<T>, idx: Seq<usize>, c: Seq<T>) -> bool {
    &&& c.len() == idx.len()
    &&& forall|j: int| 0 <= j < idx.len() ==> #[trigger] idx[j] < initial.len() && cloned(initial[idx[j] as int], c[j])
}

/// `idx` is strictly increasing.
pub open spec fn increasing(idx: Seq<usize>) -> bool {
    forall|a: int, b: int| 0 <= a < b < idx.len() ==> #[trigger] idx[a] < #[trigger] idx[b]
}

/// The operations of `initial` at the positions `idx`, taken afresh, run
/// with the invariant kept throughout.
pub open spec fn passes_when_picked<M: StateMachine>(initial: Seq<M::Operation>, idx: Seq<usize>) -> bool {
    exists|c: Seq<M::Operation>| #[trigger] picked(initial, idx, c) && simulated::<M>(c, Ok(()))
}

/// Clones of the operations of `initial` at the positions `idx`.
fn pick<T: Clone>(initial: &[T], idx: &Vec<usize>) -> (r: Vec<T>)
    requires
        forall|j: int| 0 <= j < idx@.len() ==> #[trigger] idx@[j] < initial@.len(),
    ensures
        picked(initial@, idx@, r@),
{
    let mut out: Vec<T> = Vec::new();
    let mut j: usize = 0;
    while j < idx.len()
        invariant
            j <= idx@.len(),
            forall|q: int| 0 <= q < idx@.len() ==> #[trigger] idx@[q] < initial@.len(),
            out@.len() == j,
            forall|q: int| 0 <= q < j ==> cloned(initial@[idx@[q] as int], #[trigger] out@[q]),
        decreases idx@.len() - j,
    {
        let x = initial[idx[j]].clone();
        out.push(x);
        j = j + 1;
    }
    out
}

/// `idx` without the entry at `k`.
fn drop_index(idx: &Vec<usize>, k: usize) -> (r: Vec<usize>)
    requires
        k < idx@.len(),
    ensures
        r@ == idx@.remove(k as int),
{
    let mut out: Vec<usize> = Vec::new();
    let mut j: usize = 0;
    while j < idx.len()
        invariant
            k < idx@.len(),
            j <= idx@.len(),
            out@ == (if j <= k { idx@.take(j as int) } else { idx@.remove(k as int).take(j - 1) }),
        decreases idx@.len() - j,
    {
        if j != k {
            out.push(idx[j]);
        }
        proof {
            if j < k {
                assert(idx@.take(j + 1) == idx@.take(j as int).push(idx@[j as int]));
            } else if j > k {
                assert(idx@.remove(k as int).take(j as int) == idx@.remove(k as int).take(j - 1).push(idx@[j as int]));
            } else {
                assert(idx@.remove(k as int).take(0) == idx@.take(k as int).take(0));
                assert(idx@.take(k as int) == idx@.remove(k as int).take(k as int));
            }
        }
        j = j + 1;
    }
    assert(idx@.remove(k as int).take(idx@.len() - 1) == idx@.remove(k as int));
    out
}

/// Removing entry `k` keeps positions increasing.
proof fn lemma_increasing_remove(idx: Seq<usize>, k: int)
    requires
        increasing(idx),
        0 <= k < idx.len(),
    ensures
        increasing(idx.remove(k)),
{
    let r = idx.remove(k);
    assert forall|a: int, b: int| 0 <= a < b < r.len() implies #[trigger] r[a] < #[trigger] r[b] by {
        let a1 = if a < k { a } else { a + 1 };
        let b1 = if b < k { b } else { b + 1 };
        assert(r[a] == idx[a1] && r[b] == idx[b1]);
    }
}

/// A pass that started with `l0` operations after `passes` passes that each
/// removed one, and has run fewer than `l0` simulations, has run fewer than
/// `n * n` in all.
proof fn lemma_pass_budget(n: nat, l0: nat, passes: nat, spent: nat)
    requires
        1 <= l0 <= n,
        passes <= n - l0,
        spent < passes * n + l0,
    ensures
        spent < n * n,
{
    assert(passes * n <= (n - l0) * n) by (nonlinear_arith)
        requires
            passes <= n - l0,
    ;
    assert((n - l0) * n + l0 <= n * n) by (nonlinear_arith)
        requires
            1 <= l0 <= n,
    ;
}

/// The simulation ran on `ops`, with some result.
pub open spec fn simulated_once<M: StateMachine>(ops: Seq<M::Operation>) -> bool {
    exists|v: Result<(), String>| #[trigger] simulated::<M>(ops, v)
}

/// The simulation ran `max` times, on the sequences of `runs`.
pub open spec fn simulations_spent<M: StateMachine>(max: usize, runs: Seq<Seq<M::Operation>>) -> bool {
    &&& runs.len() == max
    &&& forall|i: int| 0 <= i < runs.len() ==> #[trigger] simulated_once::<M>(runs[i])
}

/// `r` is what [`shrink_sequence`] can give for `initial` and `max_steps`:
/// a subsequence of `initial` (its operations cloned from `initial` at
/// increasing positions) that is at most `max_steps` shorter; when it is
/// shorter, its simulation fails; either no single removal from it, taken
/// afresh from `initial`, still fails, or `max_steps` simulations ran; and
/// when `max_steps` is at least `n * (n + 1)`, `n` the length of
/// `initial`, the first holds.
pub open spec fn sequence_shrunk<M: StateMachine>(initial: Seq<M::Operation>, max_steps: usize, r: Seq<M::Operation>) -> bool {
    &&& r.len() <= initial.len()
    &&& initial.len() <= r.len() + max_steps
    &&& r.len() < initial.len() ==> exists|m: String| #[trigger] simulation_fails::<M>(r, m)
    &&& exists|idx: Seq<usize>|
        {
            &&& increasing(idx)
            &&& #[trigger] picked(initial, idx, r)
            &&& (initial.len() * (initial.len() + 1) <= max_steps || !(exists|runs: Seq<Seq<M::Operation>>| #[trigger] simulations_spent::<M>(max_steps, runs)))
                ==> forall|k: int| 0 <= k < idx.len() ==> #[trigger] passes_when_picked::<M>(initial, idx.remove(k))
        }
}

/// Greedy minimization: removes one operation at a time, keeping each
/// removal after which the sequence still violates the invariant, until no
/// removal does or `max_steps` simulations have run. Each simulation
/// removes at most one operation, so at most `max_steps` are removed.
///
/// The result is a subsequence of `initial` (its operations cloned from
/// `initial` at increasing positions); when it is shorter than `initial` its
/// simulation failed. A budget of `n * (n + 1)` simulations, `n` the length
/// of `initial`, is never spent, and then no single removal from the result
/// still fails.
pub fn shrink_sequence<M: StateMachine>(initial: &[M::Operation], max_steps: usize) -> (r: Vec<M::Operation>)
    ensures
        sequence_shrunk::<M>(initial@, max_steps, r@),
{
    let n = initial.len();
    let mut idx: Vec<usize> = Vec::new();
    let mut c: usize = 0;
    while c < n
        invariant
            c <= n,
            n == initial@.len(),
            idx@ == Seq::new(c as nat, |q: int| q as usize),
        decreases n - c,
    {
        idx.push(c);
        proof {
            assert(idx@ == Seq::new((c + 1) as nat, |q: int| q as usize));
        }
        c = c + 1;
    }
    let mut current = pick(initial, &idx);
    let mut steps: usize = 0;
    let ghost mut passes: nat = 0;
    let ghost mut runs: Seq<Seq<M::Operation>> = seq![];
    loop
        invariant
            runs.len() == steps,
            forall|q: int| 0 <= q < runs.len() ==> #[trigger] simulated_once::<M>(runs[q]),
            n == initial@.len(),
            steps <= max_steps,
            idx@.len() <= n,
            n <= idx@.len() + steps,
            increasing(idx@),
            forall|j: int| 0 <= j < idx@.len() ==> #[trigger] idx@[j] < initial@.len(),
            picked(initial@, idx@, current@),
            idx@.len() < n ==> exists|m: String| #[trigger] simulation_fails::<M>(current@, m),
            steps <= passes * n,
            passes <= n - idx@.len(),
        decreases max_steps - steps,
    {
        if current.len() == 0 {
            return current;
        }
        let mut shrunk = false;
        let start_steps = steps;
        let ghost l0: nat = current@.len();
        let mut i: usize = 0;
        while i < current.len()
            invariant
                runs.len() == steps,
                forall|q: int| 0 <= q < runs.len() ==> #[trigger] simulated_once::<M>(runs[q]),
                n == initial@.len(),
                steps <= max_steps,
                idx@.len() <= n,
                n <= idx@.len() + steps,
                increasing(idx@),
                forall|j: int| 0 <= j < idx@.len() ==> #[trigger] idx@[j] < initial@.len(),
                picked(initial@, idx@, current@),
                idx@.len() < n ==> exists|m: String| #[trigger] simulation_fails::<M>(current@, m),
                1 <= l0 <= n,
                start_steps <= passes * n,
                passes <= n - l0,
                current@.len() <= l0,
                i <= current@.len(),
                steps == start_steps + i + (l0 - current@.len()),
                shrunk <==> current@.len() < l0,
                !shrunk ==> forall|k: int| 0 <= k < i ==> #[trigger] passes_when_picked::<M>(initial@, idx@.remove(k)),
            decreases current@.len() - i, max_steps - steps,
        {
            if steps >= max_steps {
                proof {
                    lemma_pass_budget(n as nat, l0, passes, steps as nat);
                    assert(n * n <= n * (n + 1)) by (nonlinear_arith);
                    assert(simulations_spent::<M>(max_steps, runs));
                }
                return current;
            }
            steps = steps + 1;
            let cidx = drop_index(&idx, i);
            let candidate = pick(initial, &cidx);
            let res = simulate::<M>(candidate.as_slice());
            proof {
                assert(simulated_once::<M>(candidate@));
                let r0 = runs;
                runs = runs.push(candidate@);
                assert forall|q: int| 0 <= q < runs.len() implies #[trigger] simulated_once::<M>(runs[q]) by {
                    if q < r0.len() {
                        assert(runs[q] == r0[q]);
                    }
                }
            }
            match res {
                Err(m) => {
                    proof {
                        lemma_increasing_remove(idx@, i as int);
                        assert(simulation_fails::<M>(candidate@, m));
                    }
                    idx = cidx;
                    current = candidate;
                    shrunk = true;
                },
                Ok(()) => {
                    proof {
                        assert(picked(initial@, idx@.remove(i as int), candidate@) && simulated::<M>(candidate@, Ok(())));
                        assert(passes_when_picked::<M>(initial@, idx@.remove(i as int)));
                    }
                    i = i + 1;
                },
            }
        }
        if !shrunk {
            return current;
        }
        proof {
            assert((passes + 1) * n == passes * n + n) by (nonlinear_arith);
            passes = passes + 1;
        }
    }
}

/// `seqs` are sequences generated in turn for `max_len` from the stream
/// `s0`, sequence `j` starting on `ss[j]` and leaving `ss[j + 1]`.
pub open spec fn drawn_in_turn<M: StateMachine>(s0: Stream, max_len: usize, seqs: Seq<Seq<M::Operation>>, ss: Seq<Stream>) -> bool {
    &&& ss.len() == seqs.len() + 1
    &&& ss[0] == s0
    &&& forall|j: int| 0 <= j < seqs.len() ==> #[trigger] sequence_from::<M>(ss[j], ss[j + 1], max_len, seqs[j])
}

/// The sequence generated for `max_len` from a generator seeded with `seed`
/// runs with the invariant kept throughout.
pub open spec fn replay_passes<M: StateMachine>(seed: u64, max_len: usize) -> bool {
    exists|after: Stream, ops: Seq<M::Operation>|
        #[trigger] sequence_from::<M>(seed_stream(seed), after, max_len, ops) && simulated::<M>(ops, Ok(()))
}

/// The message reporting that regression seed `seed` reproduced the
/// failure `msg`.
pub open spec fn reproduced_text(seed: u64, msg: Seq<char>) -> Seq<char> {
    "regression seed "@ + decimal(seed as nat) + " reproduced: "@ + msg
}

/// The number of generated cases of a run: `cfg.cases`, at least one.
pub open spec fn case_target(cfg: Config) -> int {
    if cfg.cases > 0 { cfg.cases as int } else { 1 }
}

/// `r` is the outcome of [`run_state_machine_loop`] for `cfg` and the
/// regression seeds `seeds`: the regression seeds are replayed in order and
/// the first whose sequence fails is reported (attempt 0, its message
/// prefixed with the seed); when all pass, the sequences generated in turn
/// from `cfg.seed` are simulated and the first that fails is reported with
/// its 1-based attempt, or the run passes after `case_target(cfg)` of them.
/// A reported sequence is shrunk by [`shrink_sequence`] with
/// `cfg.max_shrinks`. The run never aborts.
pub open spec fn machine_run_described<M: StateMachine>(cfg: Config, seeds: Seq<u64>, r: Outcome<Vec<M::Operation>>) -> bool {
    match r {
        Outcome::Passed { cases, discarded, skipped, .. } => {
            &&& cases == case_target(cfg)
            &&& discarded == 0
            &&& skipped == 0
            &&& forall|j: int| 0 <= j < seeds.len() ==> #[trigger] replay_passes::<M>(seeds[j], cfg.max_size)
            &&& exists|seqs: Seq<Seq<M::Operation>>, ss: Seq<Stream>|
                #[trigger] drawn_in_turn::<M>(seed_stream(cfg.seed), cfg.max_size, seqs, ss)
                && seqs.len() == case_target(cfg)
                && forall|j: int| 0 <= j < seqs.len() ==> #[trigger] simulated::<M>(seqs[j], Ok(()))
        },
        Outcome::Failed { original, shrunk, message, seed, attempt, discarded, skipped, .. } => {
            &&& discarded == 0
            &&& skipped == 0
            &&& sequence_shrunk::<M>(original@, cfg.max_shrinks, shrunk@)
            &&& ({
                ||| (attempt == 0 && exists|k: int|
                    0 <= k < seeds.len() && #[trigger] seeds[k] == seed
                    && (forall|j: int| 0 <= j < k ==> #[trigger] replay_passes::<M>(seeds[j], cfg.max_size))
                    && exists|after: Stream, msg: String|
                        #![trigger sequence_from::<M>(seed_stream(seed), after, cfg.max_size, original@), simulation_fails::<M>(original@, msg)]
                        sequence_from::<M>(seed_stream(seed), after, cfg.max_size, original@)
                        && simulation_fails::<M>(original@, msg)
                        && message@ == reproduced_text(seed, msg@))
                ||| (seed == cfg.seed && 1 <= attempt <= case_target(cfg)
                    && (forall|j: int| 0 <= j < seeds.len() ==> #[trigger] replay_passes::<M>(seeds[j], cfg.max_size))
                    && exists|seqs: Seq<Seq<M::Operation>>, ss: Seq<Stream>|
                        #[trigger] drawn_in_turn::<M>(seed_stream(cfg.seed), cfg.max_size, seqs, ss)
                        && seqs.len() == attempt
                        && (forall|j: int| 0 <= j < attempt - 1 ==> #[trigger] simulated::<M>(seqs[j], Ok(())))
                        && seqs[attempt - 1] == original@
                        && simulation_fails::<M>(original@, message))
            })
        },
        Outcome::Aborted { .. } => false,
    }
}

/// Replays the regression seeds, then generates `cfg.cases` sequences (at
/// least one) from `cfg.seed`, each of length below `max(cfg.max_size, 2)`,
/// and simulates them; the first failing sequence is shrunk and reported.
pub fn run_state_machine_loop<M: StateMachine>(cfg: &Config, regression_seeds: &[u64]) -> (r: Outcome<Vec<M::Operation>>)
    ensures
        machine_run_described::<M>(*cfg, regression_seeds@, r),
{
    let mut idx: usize = 0;
    while idx < regression_seeds.len()
        invariant
            idx <= regression_seeds@.len(),
            forall|j: int| 0 <= j < idx ==> #[trigger] replay_passes::<M>(regression_seeds@[j], cfg.max_size),
        decreases regression_seeds@.len() - idx,
    {
        let rseed = regression_seeds[idx];
        let mut rng = XorShift64::seed_from_u64(rseed);
        proof {
            lemma_seed_stream(rseed, rng);
        }
        let ghost g0 = rng;
        let sequence = generate_sequence::<M>(&mut rng, cfg.max_size);
        let verdict = simulate::<M>(sequence.as_slice());
        match verdict {
            Err(msg) => {
                let shrunk = shrink_sequence::<M>(sequence.as_slice(), cfg.max_shrinks);
                let mut message = String::new();
                string_push_str(&mut message, "regression seed ");
                push_decimal(&mut message, rseed);
                string_push_str(&mut message, " reproduced: ");
                string_push_str(&mut message, msg.as_str());
                proof {
                    assert(regression_seeds@[idx as int] == rseed);
                    assert(message@ == reproduced_text(rseed, msg@));
                    assert(simulation_fails::<M>(sequence@, msg));
                    assert(sequence_from::<M>(seed_stream(rseed), outputs(rng), cfg.max_size, sequence@));
                }
                return Outcome::Failed {
                    original: sequence,
                    shrunk,
                    message,
                    seed: rseed,
                    attempt: 0,
                    discarded: 0,
                    skipped: 0,
                    classifications: Classifications::new(),
                };
            },
            Ok(()) => {
                proof {
                    assert(verdict->Ok_0 == ());
                    assert(simulated::<M>(sequence@, Ok(())));
                    assert(sequence_from::<M>(seed_stream(rseed), outputs(rng), cfg.max_size, sequence@));
                    assert(replay_passes::<M>(rseed, cfg.max_size));
                }
            },
        }
        idx = idx + 1;
    }
    let mut rng = XorShift64::seed_from_u64(cfg.seed);
    proof {
        lemma_seed_stream(cfg.seed, rng);
    }
    let target: usize = if cfg.cases > 0 { cfg.cases } else { 1 };
    let ghost mut seqs: Seq<Seq<M::Operation>> = seq![];
    let ghost mut ss: Seq<Stream> = seq![outputs(rng)];
    let mut i: usize = 0;
    while i < target
        invariant
            i <= target,
            target == case_target(*cfg),
            forall|j: int| 0 <= j < regression_seeds@.len() ==> #[trigger] replay_passes::<M>(regression_seeds@[j], cfg.max_size),
            drawn_in_turn::<M>(seed_stream(cfg.seed), cfg.max_size, seqs, ss),
            seqs.len() == i,
            ss.last() == outputs(rng),
            forall|j: int| 0 <= j < i ==> #[trigger] simulated::<M>(seqs[j], Ok(())),
        decreases target - i,
    {
        let ghost before = rng;
        let sequence = generate_sequence::<M>(&mut rng, cfg.max_size);
        proof {
            let ns = seqs.push(sequence@);
            let nss = ss.push(outputs(rng));
            assert forall|j: int| 0 <= j < ns.len() implies #[trigger] sequence_from::<M>(nss[j], nss[j + 1], cfg.max_size, ns[j]) by {
                if j < seqs.len() {
                    assert(ns[j] == seqs[j] && nss[j] == ss[j] && nss[j + 1] == ss[j + 1]);
                } else {
                    assert(nss[j] == outputs(before) && nss[j + 1] == outputs(rng) && ns[j] == sequence@);
                }
            }
            seqs = ns;
            ss = nss;
        }
        let verdict = simulate::<M>(sequence.as_slice());
        match verdict {
            Ok(()) => {
                proof {
                    assert(verdict->Ok_0 == ());
                    assert(simulated::<M>(seqs[i as int], Ok(())));
                }
            },
            Err(msg) => {
                let shrunk = shrink_sequence::<M>(sequence.as_slice(), cfg.max_shrinks);
                proof {
                    assert(simulation_fails::<M>(sequence@, msg));
                    assert(seqs[(i + 1) - 1] == sequence@);
                    assert(drawn_in_turn::<M>(seed_stream(cfg.seed), cfg.max_size, seqs, ss));
                }
                return Outcome::Failed {
                    original: sequence,
                    shrunk,
                    message: msg,
                    seed: cfg.seed,
                    attempt: i + 1,
                    discarded: 0,
                    skipped: 0,
                    classifications: Classifications::new(),
                };
            },
        }
        i = i + 1;
    }
    Outcome::Passed { cases: target, discarded: 0, skipped: 0, classifications: Classifications::new() }
}

} // verus!
