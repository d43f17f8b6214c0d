use propcheck::arbitrary::Arbitrary;
use propcheck::rng::XorShift64;

fn r() -> XorShift64 {
    XorShift64::seed_from_u64(0xC0FFEE)
}

#[test]
fn bool_shrinks_true_to_false() {
    assert_eq!(true.shrink(), vec![false]);
    assert!(false.shrink().is_empty());
}

#[test]
fn unsigned_shrink_starts_with_zero() {
    let candidates: Vec<u32> = 100u32.shrink();
    assert_eq!(candidates[0], 0);
    assert!(candidates.iter().all(|&x| x < 100));
    assert!(0u32.shrink().is_empty());
}

#[test]
fn signed_shrink_handles_negative() {
    let candidates: Vec<i32> = (-100i32).shrink();
    assert_eq!(candidates[0], 0);
    assert!(candidates.contains(&100));
    assert!(0i32.shrink().is_empty());
}

#[test]
fn signed_shrink_handles_min() {
    let candidates: Vec<i8> = i8::MIN.shrink();
    assert_eq!(candidates[0], 0);
}

#[test]
fn vec_shrink_yields_empty_first() {
    let v = vec![1, 2, 3];
    let candidates: Vec<Vec<i32>> = v.shrink();
    assert_eq!(candidates[0], Vec::<i32>::new());
    assert!(Vec::<i32>::new().shrink().is_empty());
}

#[test]
fn string_shrink_yields_empty_first() {
    let s = String::from("hello");
    let candidates: Vec<String> = s.shrink();
    assert_eq!(candidates[0], "");
}

#[test]
fn option_shrink_drops_to_none() {
    let candidates: Vec<Option<u32>> = Some(5u32).shrink();
    assert_eq!(candidates[0], None);
}

#[test]
fn arbitrary_is_deterministic_under_seed() {
    let mut a = r();
    let mut b = r();
    for _ in 0..50 {
        let va: Vec<i32> = Arbitrary::arbitrary(&mut a, 20);
        let vb: Vec<i32> = Arbitrary::arbitrary(&mut b, 20);
        assert_eq!(va, vb);
    }
}

#[test]
fn arbitrary_string_is_valid_utf8() {
    let mut rng = r();
    for _ in 0..100 {
        let s: String = Arbitrary::arbitrary(&mut rng, 20);
        let _ = s.len();
    }
}

#[test]
fn unsigned_shrink_lists_the_halvings_toward_the_value() {
    assert_eq!(100u8.shrink(), vec![0, 50, 75, 88, 94, 97, 99]);
    assert_eq!(1u64.shrink(), vec![0]);
}

#[test]
fn signed_shrink_flips_then_halves_on_its_own_side() {
    assert_eq!((-8i16).shrink(), vec![0, 8, -4, -6, -7]);
    assert_eq!(8i16.shrink(), vec![0, 4, 6, 7]);
    assert_eq!(i8::MIN.shrink(), vec![0, -64, -96, -112, -120, -124, -126, -127]);
}

#[test]
fn char_shrinks_toward_a() {
    assert!('a'.shrink().is_empty());
    assert_eq!('e'.shrink(), vec!['a', 'c', 'd']);
    assert_eq!('A'.shrink(), vec!['a']);
}

#[test]
fn integers_are_drawn_from_two_words_within_the_size_width() {
    let mut a = XorShift64::seed_from_u64(5);
    let mut b = XorShift64::seed_from_u64(5);
    let v: u32 = Arbitrary::arbitrary(&mut a, 4);
    let _high = propcheck::Rng::next_u64(&mut b);
    let low = propcheck::Rng::next_u64(&mut b);
    assert_eq!(v as u64, low & 0xff);
    let v: u64 = Arbitrary::arbitrary(&mut a, 1000);
    let high = propcheck::Rng::next_u64(&mut b);
    let low = propcheck::Rng::next_u64(&mut b);
    let _ = high;
    assert_eq!(v, low);
}

#[test]
fn vec_shrink_lists_prefixes_then_removals_then_element_shrinks() {
    let v = vec![2u8, 1];
    let c = v.shrink();
    assert_eq!(c, vec![vec![], vec![2], vec![1], vec![2], vec![0, 1], vec![1, 1], vec![2, 0]]);
}

#[test]
fn result_and_tuple_shrinks_keep_the_variant_and_other_component() {
    let ok: Result<u8, u8> = Ok(2);
    assert_eq!(ok.shrink(), vec![Ok(0), Ok(1)]);
    let err: Result<u8, u8> = Err(1);
    assert_eq!(err.shrink(), vec![Err(0)]);
    assert_eq!((2u8, true).shrink(), vec![(0, true), (1, true), (2, false)]);
    assert_eq!(Box::new(2u8).shrink(), vec![Box::new(0), Box::new(1)]);
}
