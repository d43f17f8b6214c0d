use propcheck::state_machine::{run_state_machine_loop, StateMachine};
use propcheck::{Arbitrary, Config, Rng, ShrinkMode};

#[derive(Debug, Clone)]
enum VecOp {
    Push(u8),
    Pop,
    Clear,
}

impl Arbitrary for VecOp {
    fn arbitrary<R: Rng>(rng: &mut R, size: usize) -> Self {
        match rng.gen_range_usize(0, 3) {
            0 => VecOp::Push(u8::arbitrary(rng, size)),
            1 => VecOp::Pop,
            _ => VecOp::Clear,
        }
    }

    fn shrink(&self) -> Vec<Self> {
        match self {
            VecOp::Push(n) => n.shrink().into_iter().map(VecOp::Push).collect(),
            _ => Vec::new(),
        }
    }
}

struct VecAgainstReference;

impl StateMachine for VecAgainstReference {
    type State = (Vec<u8>, Vec<u8>);
    type Operation = VecOp;

    fn initial_state() -> Self::State {
        (Vec::new(), Vec::new())
    }

    fn execute(state: &mut Self::State, op: &Self::Operation) {
        let (sut, model) = state;
        match op {
            VecOp::Push(n) => {
                sut.push(*n);
                model.push(*n);
            }
            VecOp::Pop => {
                sut.pop();
                model.pop();
            }
            VecOp::Clear => {
                sut.clear();
                model.clear();
            }
        }
    }

    fn check_invariant(state: &Self::State) -> Result<(), String> {
        let (sut, model) = state;
        if sut == model {
            Ok(())
        } else {
            Err(format!("divergence: sut={sut:?}, model={model:?}"))
        }
    }
}

fn no_replay_cfg(seed: u64) -> Config {
    Config {
        cases: 100,
        seed,
        max_shrinks: 200,
        max_size: 30,
        max_discards: 1000,
        max_skips: 1000,
        silence_panic_hook: false,
        regression_replay: false,
        shrink_mode: ShrinkMode::Greedy,
    }
}

#[test]
fn correct_implementation_passes_state_machine_test() {
    let outcome = run_state_machine_loop::<VecAgainstReference>(&no_replay_cfg(1), &[]);
    assert!(outcome.is_passed());
}

#[derive(Debug, Clone)]
enum CounterOp {
    Increment,
    Decrement,
    Reset,
}

impl Arbitrary for CounterOp {
    fn arbitrary<R: Rng>(rng: &mut R, _size: usize) -> Self {
        match rng.gen_range_usize(0, 3) {
            0 => CounterOp::Increment,
            1 => CounterOp::Decrement,
            _ => CounterOp::Reset,
        }
    }

    fn shrink(&self) -> Vec<Self> {
        Vec::new()
    }
}

struct BuggyCounter;

impl StateMachine for BuggyCounter {
    type State = (i32, i32);
    type Operation = CounterOp;

    fn initial_state() -> Self::State {
        (0, 0)
    }

    fn execute(state: &mut Self::State, op: &Self::Operation) {
        let (real, expected) = state;
        match op {
            CounterOp::Increment => {
                *real += 1;
                *expected += 1;
            }
            CounterOp::Decrement => {
                *expected -= 1;
            }
            CounterOp::Reset => {
                *real = 0;
                *expected = 0;
            }
        }
    }

    fn check_invariant(state: &Self::State) -> Result<(), String> {
        if state.0 == state.1 {
            Ok(())
        } else {
            Err(format!("real={} expected={}", state.0, state.1))
        }
    }
}

#[test]
fn buggy_counter_is_caught_and_shrunk_to_one_decrement() {
    let outcome = run_state_machine_loop::<BuggyCounter>(&no_replay_cfg(2), &[]);
    assert!(outcome.is_failed());
    let shrunk = outcome.shrunk().unwrap();
    assert_eq!(shrunk.len(), 1);
    assert!(matches!(shrunk[0], CounterOp::Decrement));
}
