use propcheck::arbitrary::Arbitrary;
use propcheck::collections::duration_shrink_parts;
use propcheck::rng::XorShift64;
use std::collections::VecDeque;
use std::ops::Range;
use std::time::Duration;

fn r() -> XorShift64 {
    XorShift64::seed_from_u64(0xBADC0DE)
}

#[test]
fn array_arbitrary_has_fixed_length() {
    let mut rng = r();
    let a: [u8; 5] = Arbitrary::arbitrary(&mut rng, 10);
    assert_eq!(a.len(), 5);
}

#[test]
fn array_shrinks_each_slot() {
    let arr: [u32; 3] = [5, 10, 15];
    let v: Vec<[u32; 3]> = arr.shrink();
    assert!(v.iter().any(|a| a[0] == 0));
}

#[test]
fn array_shrinks_slot_by_slot_in_order() {
    let arr: [u32; 2] = [2, 1];
    let v: Vec<[u32; 2]> = arr.shrink();
    // slot 0: 2 -> [0, 1]; slot 1: 1 -> [0]
    assert_eq!(v, vec![[0, 1], [1, 1], [2, 0]]);
}

#[test]
fn boxed_shrinks_through_inner() {
    let b = Box::new(100u32);
    let v: Vec<Box<u32>> = b.shrink();
    assert!(v.iter().any(|x| **x == 0));
}

#[test]
fn duration_shrinks_to_zero() {
    let d = Duration::new(7, 500);
    let v: Vec<Duration> = d.shrink();
    assert!(v.contains(&Duration::ZERO));
}

#[test]
fn duration_candidates_in_order() {
    let d = Duration::new(4, 500);
    let v: Vec<Duration> = d.shrink();
    assert_eq!(
        v,
        vec![
            Duration::ZERO,
            Duration::new(0, 500),
            Duration::new(2, 500),
            Duration::new(3, 500),
            Duration::new(4, 0),
        ]
    );
    assert!(Duration::ZERO.shrink().is_empty());
}

#[test]
fn duration_shrink_parts_exact() {
    assert_eq!(duration_shrink_parts(0, 0), vec![]);
    assert_eq!(duration_shrink_parts(0, 9), vec![(0, 0), (0, 0)]);
    assert_eq!(duration_shrink_parts(2, 0), vec![(0, 0), (0, 0), (1, 0)]);
}

#[test]
fn duration_arbitrary_keeps_nanos_below_a_second() {
    let mut rng = r();
    for _ in 0..50 {
        let d: Duration = Arbitrary::arbitrary(&mut rng, 20);
        assert!(d.subsec_nanos() < 1_000_000_000);
    }
}

#[test]
fn range_arbitrary_is_well_ordered() {
    let mut rng = r();
    for _ in 0..100 {
        let r: Range<i32> = Arbitrary::arbitrary(&mut rng, 50);
        assert!(r.start <= r.end);
    }
}

#[test]
fn range_shrinks_keep_order() {
    let range: Range<i32> = 4..10;
    let v: Vec<Range<i32>> = range.shrink();
    assert_eq!(v[0], 4..4);
    assert!(v.iter().all(|x| x.start <= x.end));
    assert!(v.contains(&(0..10)));
    assert!(v.contains(&(4..5)));
    assert!(!v.contains(&(4..0)));
}

#[test]
fn vecdeque_shrinks_like_its_vector() {
    let d: VecDeque<u8> = VecDeque::from(vec![3, 4]);
    let v: Vec<VecDeque<u8>> = d.shrink();
    let as_vecs: Vec<Vec<u8>> = v.iter().map(|x| x.iter().cloned().collect()).collect();
    let expected: Vec<Vec<u8>> = vec![3u8, 4].shrink();
    assert_eq!(as_vecs, expected);
    assert!(VecDeque::<u8>::new().shrink().is_empty());
}

#[test]
fn vecdeque_arbitrary_respects_size() {
    let mut rng = r();
    for _ in 0..50 {
        let d: VecDeque<u8> = Arbitrary::arbitrary(&mut rng, 6);
        assert!(d.len() <= 6);
    }
}

#[test]
fn hashmap_arbitrary_is_constructible() {
    let mut rng = r();
    let m: std::collections::HashMap<u8, u8> = Arbitrary::arbitrary(&mut rng, 10);
    let _ = m.len();
}

#[test]
fn hashset_shrinks_to_empty() {
    let mut s = std::collections::HashSet::new();
    s.insert(1u32);
    s.insert(2u32);
    let v: Vec<std::collections::HashSet<u32>> = s.shrink();
    assert!(v.iter().any(|x| x.is_empty()));
}

#[test]
fn btreemap_arbitrary_is_constructible() {
    let mut rng = r();
    let m: std::collections::BTreeMap<u8, String> = Arbitrary::arbitrary(&mut rng, 5);
    let _ = m.len();
}

#[test]
fn hashmap_arbitrary_respects_size() {
    let mut rng = r();
    for _ in 0..30 {
        let m: std::collections::HashMap<u16, u8> = Arbitrary::arbitrary(&mut rng, 4);
        assert!(m.len() <= 4);
    }
}

#[test]
fn btreeset_shrinks_first_to_empty_then_smaller_sets() {
    let s: std::collections::BTreeSet<u8> = [1u8, 5, 9].into_iter().collect();
    let v: Vec<std::collections::BTreeSet<u8>> = s.shrink();
    assert!(v[0].is_empty());
    assert!(v.iter().all(|x| x.len() <= 3));
    assert!(v.iter().any(|x| x.len() == 2));
    assert!(std::collections::BTreeSet::<u8>::new().shrink().is_empty());
}

#[test]
fn btreemap_shrinks_drop_entries() {
    let mut m = std::collections::BTreeMap::new();
    m.insert(3u8, 7u8);
    m.insert(4u8, 0u8);
    let v: Vec<std::collections::BTreeMap<u8, u8>> = m.shrink();
    assert!(v[0].is_empty());
    assert!(v.iter().any(|x| x.len() == 1 && x.get(&4) == Some(&0)));
}
