//! The `Arbitrary` implementations that `#[derive(Arbitrary)]` writes, run
//! on concrete values. Each implementation below is the text the library's
//! derive writer produces for the item (see `derive_arbitrary`), laid out
//! for reading; `derived_text_matches_the_implementations_here` checks one of
//! them against the writer.

use propcheck::derive::{Delim, Spacing, Token};
use propcheck::derive_attr::derive_arbitrary;
use propcheck::{forall_with, Arbitrary, Config, Outcome, ShrinkMode, XorShift64};

#[derive(Debug, Clone, PartialEq)]
struct UnitStruct;

impl ::propcheck::Arbitrary for UnitStruct {
    fn arbitrary<__R: ::propcheck::Rng>(_rng: &mut __R, _size: usize) -> Self {
        UnitStruct
    }
    fn shrink(&self) -> ::std::vec::Vec<Self> {
        ::std::vec::Vec::new()
    }
}

#[derive(Debug, Clone, PartialEq)]
struct NamedStruct {
    a: u8,
    b: String,
    c: Vec<i32>,
}

impl ::propcheck::Arbitrary for NamedStruct {
    fn arbitrary<__R: ::propcheck::Rng>(rng: &mut __R, size: usize) -> Self {
        NamedStruct {
            a: <_ as ::propcheck::Arbitrary>::arbitrary(rng, size),
            b: <_ as ::propcheck::Arbitrary>::arbitrary(rng, size),
            c: <_ as ::propcheck::Arbitrary>::arbitrary(rng, size),
        }
    }
    fn shrink(&self) -> ::std::vec::Vec<Self> {
        let mut __out: ::std::vec::Vec<Self> = ::std::vec::Vec::new();
        for __s in ::propcheck::Arbitrary::shrink(&self.a) {
            __out.push(Self { a: __s, b: ::std::clone::Clone::clone(&self.b), c: ::std::clone::Clone::clone(&self.c) });
        }
        for __s in ::propcheck::Arbitrary::shrink(&self.b) {
            __out.push(Self { b: __s, a: ::std::clone::Clone::clone(&self.a), c: ::std::clone::Clone::clone(&self.c) });
        }
        for __s in ::propcheck::Arbitrary::shrink(&self.c) {
            __out.push(Self { c: __s, a: ::std::clone::Clone::clone(&self.a), b: ::std::clone::Clone::clone(&self.b) });
        }
        __out
    }
}

#[derive(Debug, Clone, PartialEq)]
struct TupleStruct(u32, bool);

impl ::propcheck::Arbitrary for TupleStruct {
    fn arbitrary<__R: ::propcheck::Rng>(rng: &mut __R, size: usize) -> Self {
        TupleStruct(<_ as ::propcheck::Arbitrary>::arbitrary(rng, size), <_ as ::propcheck::Arbitrary>::arbitrary(rng, size))
    }
    fn shrink(&self) -> ::std::vec::Vec<Self> {
        let mut __out: ::std::vec::Vec<Self> = ::std::vec::Vec::new();
        for __s in ::propcheck::Arbitrary::shrink(&self.0) {
            __out.push(Self(__s, ::std::clone::Clone::clone(&self.1)));
        }
        for __s in ::propcheck::Arbitrary::shrink(&self.1) {
            __out.push(Self(::std::clone::Clone::clone(&self.0), __s));
        }
        __out
    }
}

#[derive(Debug, Clone, PartialEq)]
struct GenericStruct<T> {
    inner: T,
    list: Vec<T>,
}

impl<T> ::propcheck::Arbitrary for GenericStruct<T>
where
    T: ::propcheck::Arbitrary + ::std::clone::Clone,
{
    fn arbitrary<__R: ::propcheck::Rng>(rng: &mut __R, size: usize) -> Self {
        GenericStruct { inner: <_ as ::propcheck::Arbitrary>::arbitrary(rng, size), list: <_ as ::propcheck::Arbitrary>::arbitrary(rng, size) }
    }
    fn shrink(&self) -> ::std::vec::Vec<Self> {
        let mut __out: ::std::vec::Vec<Self> = ::std::vec::Vec::new();
        for __s in ::propcheck::Arbitrary::shrink(&self.inner) {
            __out.push(Self { inner: __s, list: ::std::clone::Clone::clone(&self.list) });
        }
        for __s in ::propcheck::Arbitrary::shrink(&self.list) {
            __out.push(Self { list: __s, inner: ::std::clone::Clone::clone(&self.inner) });
        }
        __out
    }
}

#[derive(Debug, Clone, PartialEq)]
enum SimpleEnum {
    Alpha,
    Beta,
    Gamma,
}

impl ::propcheck::Arbitrary for SimpleEnum {
    fn arbitrary<__R: ::propcheck::Rng>(rng: &mut __R, _size: usize) -> Self {
        let __pick = ::propcheck::Rng::gen_range_u64(rng, 0, 3u64);
        match __pick {
            0 => SimpleEnum::Alpha,
            1 => SimpleEnum::Beta,
            2 => SimpleEnum::Gamma,
            _ => unreachable!(),
        }
    }
    fn shrink(&self) -> ::std::vec::Vec<Self> {
        let mut __out: ::std::vec::Vec<Self> = ::std::vec::Vec::new();
        match self {
            SimpleEnum::Alpha => {}
            _ => __out.push(SimpleEnum::Alpha),
        }
        match self {
            SimpleEnum::Alpha => {}
            SimpleEnum::Beta => {}
            SimpleEnum::Gamma => {}
        }
        __out
    }
}

#[derive(Debug, Clone, PartialEq)]
enum WithFields {
    Empty,
    Single(u32),
    Pair(u8, String),
    Named { x: i32, y: i32 },
}

impl ::propcheck::Arbitrary for WithFields {
    fn arbitrary<__R: ::propcheck::Rng>(rng: &mut __R, size: usize) -> Self {
        let __pick = ::propcheck::Rng::gen_range_u64(rng, 0, 4u64);
        match __pick {
            0 => WithFields::Empty,
            1 => WithFields::Single(<_ as ::propcheck::Arbitrary>::arbitrary(rng, size)),
            2 => WithFields::Pair(<_ as ::propcheck::Arbitrary>::arbitrary(rng, size), <_ as ::propcheck::Arbitrary>::arbitrary(rng, size)),
            3 => WithFields::Named { x: <_ as ::propcheck::Arbitrary>::arbitrary(rng, size), y: <_ as ::propcheck::Arbitrary>::arbitrary(rng, size) },
            _ => unreachable!(),
        }
    }
    fn shrink(&self) -> ::std::vec::Vec<Self> {
        let mut __out: ::std::vec::Vec<Self> = ::std::vec::Vec::new();
        match self {
            WithFields::Empty => {}
            _ => __out.push(WithFields::Empty),
        }
        match self {
            WithFields::Empty => {}
            WithFields::Single(__f0) => {
                for __s in ::propcheck::Arbitrary::shrink(__f0) {
                    __out.push(WithFields::Single(__s));
                }
            }
            WithFields::Pair(__f0, __f1) => {
                for __s in ::propcheck::Arbitrary::shrink(__f0) {
                    __out.push(WithFields::Pair(__s, ::std::clone::Clone::clone(__f1)));
                }
                for __s in ::propcheck::Arbitrary::shrink(__f1) {
                    __out.push(WithFields::Pair(::std::clone::Clone::clone(__f0), __s));
                }
            }
            WithFields::Named { x, y } => {
                for __s in ::propcheck::Arbitrary::shrink(x) {
                    __out.push(WithFields::Named { x: __s, y: ::std::clone::Clone::clone(y) });
                }
                for __s in ::propcheck::Arbitrary::shrink(y) {
                    __out.push(WithFields::Named { x: ::std::clone::Clone::clone(x), y: __s });
                }
            }
        }
        __out
    }
}

#[derive(Debug, Clone, PartialEq)]
enum GenericEnum<T> {
    Nothing,
    Just(T),
    List(Vec<T>),
}

impl<T> ::propcheck::Arbitrary for GenericEnum<T>
where
    T: ::propcheck::Arbitrary + ::std::clone::Clone,
{
    fn arbitrary<__R: ::propcheck::Rng>(rng: &mut __R, size: usize) -> Self {
        let __pick = ::propcheck::Rng::gen_range_u64(rng, 0, 3u64);
        match __pick {
            0 => GenericEnum::Nothing,
            1 => GenericEnum::Just(<_ as ::propcheck::Arbitrary>::arbitrary(rng, size)),
            2 => GenericEnum::List(<_ as ::propcheck::Arbitrary>::arbitrary(rng, size)),
            _ => unreachable!(),
        }
    }
    fn shrink(&self) -> ::std::vec::Vec<Self> {
        let mut __out: ::std::vec::Vec<Self> = ::std::vec::Vec::new();
        match self {
            GenericEnum::Nothing => {}
            _ => __out.push(GenericEnum::Nothing),
        }
        match self {
            GenericEnum::Nothing => {}
            GenericEnum::Just(__f0) => {
                for __s in ::propcheck::Arbitrary::shrink(__f0) {
                    __out.push(GenericEnum::Just(__s));
                }
            }
            GenericEnum::List(__f0) => {
                for __s in ::propcheck::Arbitrary::shrink(__f0) {
                    __out.push(GenericEnum::List(__s));
                }
            }
        }
        __out
    }
}

#[derive(Debug, Clone)]
struct WhereOwned<T>
where
    T: Send + 'static,
{
    inner: T,
    list: Vec<T>,
}

impl<T> ::propcheck::Arbitrary for WhereOwned<T>
where
    T: ::propcheck::Arbitrary + ::std::clone::Clone,
    T: Send + 'static,
{
    fn arbitrary<__R: ::propcheck::Rng>(rng: &mut __R, size: usize) -> Self {
        WhereOwned { inner: <_ as ::propcheck::Arbitrary>::arbitrary(rng, size), list: <_ as ::propcheck::Arbitrary>::arbitrary(rng, size) }
    }
    fn shrink(&self) -> ::std::vec::Vec<Self> {
        let mut __out: ::std::vec::Vec<Self> = ::std::vec::Vec::new();
        for __s in ::propcheck::Arbitrary::shrink(&self.inner) {
            __out.push(Self { inner: __s, list: ::std::clone::Clone::clone(&self.list) });
        }
        for __s in ::propcheck::Arbitrary::shrink(&self.list) {
            __out.push(Self { list: __s, inner: ::std::clone::Clone::clone(&self.inner) });
        }
        __out
    }
}

#[derive(Debug, Clone)]
enum WhereEnum<T>
where
    T: std::fmt::Debug + Send + 'static,
{
    Empty,
    Value(T),
}

impl<T> ::propcheck::Arbitrary for WhereEnum<T>
where
    T: ::propcheck::Arbitrary + ::std::clone::Clone,
    T: std::fmt::Debug + Send + 'static,
{
    fn arbitrary<__R: ::propcheck::Rng>(rng: &mut __R, size: usize) -> Self {
        let __pick = ::propcheck::Rng::gen_range_u64(rng, 0, 2u64);
        match __pick {
            0 => WhereEnum::Empty,
            1 => WhereEnum::Value(<_ as ::propcheck::Arbitrary>::arbitrary(rng, size)),
            _ => unreachable!(),
        }
    }
    fn shrink(&self) -> ::std::vec::Vec<Self> {
        let mut __out: ::std::vec::Vec<Self> = ::std::vec::Vec::new();
        match self {
            WhereEnum::Empty => {}
            _ => __out.push(WhereEnum::Empty),
        }
        match self {
            WhereEnum::Empty => {}
            WhereEnum::Value(__f0) => {
                for __s in ::propcheck::Arbitrary::shrink(__f0) {
                    __out.push(WhereEnum::Value(__s));
                }
            }
        }
        __out
    }
}

/// The runner's default configuration with the given seed and no
/// regression replay.
fn no_replay_cfg(seed: u64) -> Config {
    Config {
        cases: 200,
        seed,
        max_shrinks: 1024,
        max_size: 100,
        max_discards: 1000,
        max_skips: 1000,
        silence_panic_hook: false,
        regression_replay: false,
        shrink_mode: ShrinkMode::Greedy,
    }
}

#[test]
fn derive_basic_derive_unit_struct_compiles_and_generates() {
    let mut rng = XorShift64::seed_from_u64(1);
    let _: UnitStruct = Arbitrary::arbitrary(&mut rng, 10);
    assert!(UnitStruct.shrink().into_iter().next().is_none());
}

#[test]
fn derive_basic_derive_named_struct_round_trips() {
    let mut rng = XorShift64::seed_from_u64(2);
    for _ in 0..50 {
        let v: NamedStruct = Arbitrary::arbitrary(&mut rng, 20);
        let _ = v.shrink().into_iter().take(5).count();
    }
}

#[test]
fn derive_basic_derive_tuple_struct_round_trips() {
    let mut rng = XorShift64::seed_from_u64(3);
    for _ in 0..50 {
        let v: TupleStruct = Arbitrary::arbitrary(&mut rng, 20);
        let _ = v.shrink().into_iter().take(5).count();
    }
}

#[test]
fn derive_basic_derive_generic_struct_works_with_arbitrary_inner() {
    let mut rng = XorShift64::seed_from_u64(4);
    let v: GenericStruct<u32> = Arbitrary::arbitrary(&mut rng, 10);
    let _: () = v.shrink().into_iter().next().map(|_| ()).unwrap_or(());
}

#[test]
fn derive_basic_derive_works_inside_property_test() {
    let outcome = forall_with(Config { cases: 100, ..no_replay_cfg(11) }, |s: &NamedStruct| {
        s.a == s.a && s.b == s.b && s.c == s.c
    });
    assert!(outcome.is_passed(), "named struct round-trip: {outcome:?}");
}

#[test]
fn derive_basic_derive_failure_shrinks_through_fields() {
    let cfg = Config {
        cases: 100,
        seed: 999,
        max_shrinks: 256,
        max_size: 30,
        max_discards: 1000,
        silence_panic_hook: false,
        ..no_replay_cfg(999)
    };
    let outcome = forall_with(cfg, |s: &NamedStruct| s.a <= 200);
    match outcome {
        Outcome::Failed { shrunk, .. } => {
            assert!(shrunk.a > 200, "expected shrunk.a > 200, got {}", shrunk.a);
            assert!(shrunk.b.is_empty() || shrunk.b.len() <= 5, "expected b to shrink, got {:?}", shrunk.b);
            assert!(shrunk.c.len() <= 3, "expected c to shrink, got {:?}", shrunk.c);
        }
        other => panic!("expected failure, got {other:?}"),
    }
}

#[test]
fn derive_enum_simple_enum_generates_all_variants() {
    let mut rng = XorShift64::seed_from_u64(1);
    let mut seen_alpha = false;
    let mut seen_beta = false;
    let mut seen_gamma = false;
    for _ in 0..200 {
        match SimpleEnum::arbitrary(&mut rng, 10) {
            SimpleEnum::Alpha => seen_alpha = true,
            SimpleEnum::Beta => seen_beta = true,
            SimpleEnum::Gamma => seen_gamma = true,
        }
    }
    assert!(seen_alpha && seen_beta && seen_gamma);
}

#[test]
fn derive_enum_enum_with_fields_arbitrary_works() {
    let mut rng = XorShift64::seed_from_u64(2);
    let mut seen_empty = false;
    let mut seen_single = false;
    let mut seen_pair = false;
    let mut seen_named = false;
    for _ in 0..400 {
        match WithFields::arbitrary(&mut rng, 10) {
            WithFields::Empty => seen_empty = true,
            WithFields::Single(_) => seen_single = true,
            WithFields::Pair(_, _) => seen_pair = true,
            WithFields::Named { .. } => seen_named = true,
        }
    }
    assert!(seen_empty);
    assert!(seen_single);
    assert!(seen_pair);
    assert!(seen_named);
}

#[test]
fn derive_enum_enum_shrinks_to_simplest_variant_when_property_universally_fails() {
    let outcome = forall_with(no_replay_cfg(3), |_: &WithFields| false);
    assert!(outcome.is_failed());
    assert_eq!(*outcome.shrunk().unwrap(), WithFields::Empty);
}

#[test]
fn derive_enum_enum_shrinks_within_variant_when_collapse_doesnt_help() {
    let outcome = forall_with(no_replay_cfg(3), |v: &WithFields| !matches!(v, WithFields::Pair(_, _)));
    assert!(outcome.is_failed());
    assert_eq!(*outcome.shrunk().unwrap(), WithFields::Pair(0, String::new()));
}

#[test]
fn derive_enum_enum_shrinks_fields_within_variant_when_no_unit_collapse_applies() {
    let outcome = forall_with(no_replay_cfg(4), |v: &WithFields| match v {
        WithFields::Pair(n, _) => *n <= 200,
        _ => true,
    });
    assert!(outcome.is_failed());
    match outcome.shrunk().unwrap() {
        WithFields::Pair(n, s) => {
            assert_eq!(*n, 201);
            assert_eq!(s, "");
        }
        other => panic!("expected shrunk to be Pair, got {other:?}"),
    }
}

#[test]
fn derive_enum_generic_enum_works_with_concrete_type() {
    let mut rng = XorShift64::seed_from_u64(5);
    let mut seen_nothing = false;
    let mut seen_just = false;
    let mut seen_list = false;
    for _ in 0..200 {
        match GenericEnum::<u32>::arbitrary(&mut rng, 10) {
            GenericEnum::Nothing => seen_nothing = true,
            GenericEnum::Just(_) => seen_just = true,
            GenericEnum::List(_) => seen_list = true,
        }
    }
    assert!(seen_nothing && seen_just && seen_list);
}

#[test]
fn derive_enum_generic_enum_drives_run() {
    let outcome = forall_with(Config { cases: 100, ..no_replay_cfg(12) }, |g: &GenericEnum<u8>| match g {
        GenericEnum::Nothing => true,
        GenericEnum::Just(_) => true,
        GenericEnum::List(v) => v.len() == v.len(),
    });
    assert!(outcome.is_passed(), "Generic round-trip: {outcome:?}");
}

#[test]
fn derive_enum_struct_with_where_clause_compiles_and_generates() {
    let mut rng = XorShift64::seed_from_u64(6);
    let v: WhereOwned<u32> = Arbitrary::arbitrary(&mut rng, 10);
    let _ = v.inner;
    let _ = v.list;
}

#[test]
fn derive_enum_enum_with_where_clause_works() {
    let mut rng = XorShift64::seed_from_u64(7);
    for _ in 0..50 {
        let _: WhereEnum<u32> = Arbitrary::arbitrary(&mut rng, 10);
    }
}

#[test]
fn derived_shrink_lists_field_candidates_in_declaration_order() {
    let v = TupleStruct(2, true);
    let expected: Vec<TupleStruct> = vec![TupleStruct(0, true), TupleStruct(1, true), TupleStruct(2, false)];
    assert_eq!(v.shrink(), expected);
}

fn id(s: &str) -> Token {
    Token::Ident(s.to_string())
}

fn p(c: char) -> Token {
    Token::Punct(c, Spacing::Alone)
}

/// Drops every space and line break, so that layouts compare equal.
fn squeeze(s: &str) -> String {
    s.chars().filter(|c| !c.is_whitespace()).collect()
}

#[test]
fn derived_text_matches_the_implementations_here() {
    let input = vec![
        id("struct"),
        id("TupleStruct"),
        Token::Group(Delim::Parenthesis, vec![id("u32"), p(','), id("bool")]),
        p(';'),
    ];
    let out = derive_arbitrary(&input);
    let expected = "impl ::propcheck::Arbitrary for TupleStruct {
        fn arbitrary<__R: ::propcheck::Rng>(rng: &mut __R, size: usize) -> Self {
            TupleStruct(<_ as ::propcheck::Arbitrary>::arbitrary(rng, size), <_ as ::propcheck::Arbitrary>::arbitrary(rng, size))
        }
        fn shrink(&self) -> ::std::vec::Vec<Self> {
            let mut __out: ::std::vec::Vec<Self> = ::std::vec::Vec::new();
            for __s in ::propcheck::Arbitrary::shrink(&self.0) { __out.push(Self(__s, ::std::clone::Clone::clone(&self.1))); }
            for __s in ::propcheck::Arbitrary::shrink(&self.1) { __out.push(Self(::std::clone::Clone::clone(&self.0), __s)); }
            __out
        }
    }";
    assert_eq!(squeeze(&out), squeeze(expected));
}
