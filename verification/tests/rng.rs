use propcheck::rng::{Rng, XorShift64};

#[test]
fn xorshift_is_deterministic_for_same_seed() {
    let mut a = XorShift64::seed_from_u64(42);
    let mut b = XorShift64::seed_from_u64(42);
    for _ in 0..1000 {
        assert_eq!(a.next_u64(), b.next_u64());
    }
}

#[test]
fn xorshift_different_seeds_diverge() {
    let mut a = XorShift64::seed_from_u64(1);
    let mut b = XorShift64::seed_from_u64(2);
    assert_ne!(a.next_u64(), b.next_u64());
}

#[test]
fn zero_seed_is_replaced() {
    let r = XorShift64::seed_from_u64(0);
    assert_ne!(r.state(), 0);
}

#[test]
fn gen_range_respects_bounds() {
    let mut r = XorShift64::seed_from_u64(7);
    for _ in 0..1000 {
        let v = r.gen_range_u64(10, 20);
        assert!((10..20).contains(&v));
        let v = r.gen_range_i64(-5, 5);
        assert!((-5..5).contains(&v));
        let v = r.gen_range_usize(0, 8);
        assert!(v < 8);
    }
}

#[test]
fn fill_bytes_fills_all() {
    let mut r = XorShift64::seed_from_u64(123);
    let mut buf = [0u8; 17];
    r.fill_bytes(&mut buf);
    assert!(buf.iter().any(|&b| b != 0));
}

#[test]
fn choose_handles_empty() {
    let mut r = XorShift64::seed_from_u64(1);
    let empty: [i32; 0] = [];
    assert!(r.choose_one(&empty).is_none());
    let one = [42];
    assert_eq!(r.choose_one(&one), Some(&42));
}

#[test]
fn zero_seed_uses_the_fixed_replacement_state() {
    let r = XorShift64::seed_from_u64(0);
    assert_eq!(r.state(), 0x9E37_79B9_7F4A_7C15);
    let s = XorShift64::seed_from_u64(5);
    assert_eq!(s.state(), 5);
}

#[test]
fn next_u64_matches_the_xorshift_star_step() {
    let mut r = XorShift64::seed_from_u64(1);
    let mut x: u64 = 1;
    x ^= x >> 12;
    x ^= x << 25;
    x ^= x >> 27;
    assert_eq!(r.next_u64(), x.wrapping_mul(0x2545_F491_4F6C_DD1D));
    assert_eq!(r.state(), x);
}

#[test]
fn state_reproduces_the_rest_of_the_stream() {
    let mut a = XorShift64::seed_from_u64(99);
    a.next_u64();
    a.next_u64();
    let mut b = XorShift64::seed_from_u64(a.state());
    for _ in 0..100 {
        assert_eq!(a.next_u64(), b.next_u64());
    }
}

#[test]
fn derived_draws_follow_the_next_word() {
    let mut a = XorShift64::seed_from_u64(31);
    let mut b = XorShift64::seed_from_u64(31);
    let w = b.next_u64();
    assert_eq!(a.gen_range_u64(3, 10), 3 + w % 7);
    let w = b.next_u64();
    assert_eq!(a.next_u32(), (w & 0xffff_ffff) as u32);
    let w = b.next_u64();
    assert_eq!(a.gen_bool(), w % 2 == 1);
    let w = b.next_u64();
    let mut buf = [0u8; 3];
    a.fill_bytes(&mut buf);
    assert_eq!(buf, [w as u8, (w >> 8) as u8, (w >> 16) as u8]);
}
