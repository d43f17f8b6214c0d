# propcheck

Property-based testing and fuzzing for Rust. The core is a Verus library:
its functions are verified against the contracts they state.

- `src/` is the library that Verus checks: the seeded `XorShift64` generator and its
  output stream; `Arbitrary` generation and shrinking for integers, `bool`,
  `char`, strings, vectors, tuples, options, results, boxes, arrays, deques,
  hash and ordered sets and maps, ranges and durations; the composable
  `Strategy` generators (integer and character ranges, string character
  sets, domain-shaped strings, `one_of`, `vec_of`, `map`, `filter`,
  `flat_map`, …); the property runner with discards, skips, classification
  tallies, shrinking (greedy or exhaustive) and regression-seed replay; the
  state-machine runner; the byte mutation fuzzer with crash minimization;
  the regression seed file format; and the reading of items and test
  functions and the writing of the code behind `#[derive(Arbitrary)]` and
  `#[propcheck]`, over a token model of the compiler's token trees.
- `app/` is the plain-Rust side: default configurations read from the
  environment and the clock, panic catching and the silent panic hook, the
  assertion macros, file I/O for regression seeds and fuzzing corpora,
  printed reports, `block_on`, the floating-point benchmark harness, and the
  conversion between the compiler's token streams and the library's token
  model that a procedural-macro crate calls.
- `tests/` runs the library on concrete values.
