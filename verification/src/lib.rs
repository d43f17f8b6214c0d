//! Property-based testing and fuzzing: seeded random generation, shrinking of
//! counterexamples, composable generator strategies, and the runners that
//! drive them.
pub mod rng;
pub mod shrink;
pub mod arbitrary;
pub mod text;
pub mod strategy;
pub mod strategy_str;
pub mod strategy_domain;
pub mod runner;
pub mod strategy_runner;
pub mod fuzz;
pub mod state_machine;
pub mod collections;
pub mod ranges;
pub mod ordered;
pub mod derive;
pub mod derive_parse;
pub mod derive_gen;
pub mod derive_attr;

pub use arbitrary::Arbitrary;
pub use rng::{Rng, XorShift64};
pub use runner::{
    CaseOutcome, CaseReport, Classifications, Config, IntoPropResult, Outcome, PropAssertFailure,
    PropDiscard, PropResult, PropSkip, ShrinkMode, forall_with, run_loop,
};
pub use strategy::{Strategy, StrategyExt};
pub use strategy_runner::{differential_with, forall_strategy_with};
pub use fuzz::{Failure, FuzzConfig, FuzzReport, TypedFuzzConfig, fuzz_typed};
pub mod regression;
