use propcheck::rng::XorShift64;
use propcheck::strategy::str::{ascii_alphanumeric, ascii_digits, from_char_set, hex_string, ascii_printable, ascii_letters};
use propcheck::strategy::Strategy;

fn r() -> XorShift64 {
    XorShift64::seed_from_u64(0xC0DE)
}

#[test]
fn ascii_digits_only_contain_digits() {
    let s = ascii_digits(0..20);
    let mut rng = r();
    for _ in 0..200 {
        let v = s.new_value(&mut rng, 16).unwrap();
        assert!(v.chars().all(|c| c.is_ascii_digit()));
        assert!(v.len() < 20);
    }
}

#[test]
fn ascii_alphanumeric_respects_min_len() {
    let s = ascii_alphanumeric(3..10);
    let mut rng = r();
    for _ in 0..100 {
        let v = s.new_value(&mut rng, 16).unwrap();
        assert!(v.len() >= 3 && v.len() < 10);
        assert!(v.chars().all(|c| c.is_ascii_alphanumeric()));
    }
}

#[test]
fn hex_string_is_lowercase_hex() {
    let s = hex_string(8..9);
    let mut rng = r();
    for _ in 0..50 {
        let v = s.new_value(&mut rng, 16).unwrap();
        assert_eq!(v.len(), 8);
        assert!(v.chars().all(|c| c.is_ascii_hexdigit() && !c.is_ascii_uppercase()));
    }
}

#[test]
fn shrink_collapses_to_canonical_char() {
    let s = ascii_alphanumeric(1..10);
    let val = "AaZz9".to_string();
    let shrinks = s.shrink_value(&val);
    assert!(shrinks.iter().any(|s| s.contains('0')));
}

#[test]
fn shrink_reduces_length_first() {
    let s = ascii_digits(0..100);
    let val = "12345".to_string();
    let shrinks = s.shrink_value(&val);
    assert_eq!(shrinks[0], "");
}

#[test]
fn from_char_set_respects_user_set() {
    let s = from_char_set(vec!['x', 'y', 'z'], 1..10);
    let mut rng = r();
    for _ in 0..50 {
        let v = s.new_value(&mut rng, 16).unwrap();
        assert!(v.chars().all(|c| "xyz".contains(c)));
    }
}

#[test]
fn charset_shrink_lists_every_candidate_in_order() {
    let s = ascii_digits(0..10);
    let got = s.shrink_value(&"95".to_string());
    let want: Vec<String> = vec!["", "9", "5", "9", "05", "90"].into_iter().map(String::from).collect();
    assert_eq!(got, want);
    let s = ascii_digits(2..10);
    let got = s.shrink_value(&"00".to_string());
    assert!(got.is_empty());
}

#[test]
fn charset_picks_characters_by_word_mod_set_size() {
    let s = from_char_set(vec!['p', 'q', 'r'], 2..3);
    let mut a = XorShift64::seed_from_u64(11);
    let mut b = XorShift64::seed_from_u64(11);
    let v = s.new_value(&mut a, 0).unwrap();
    let set = ['p', 'q', 'r'];
    let c0 = set[(propcheck::Rng::next_u64(&mut b) % 3) as usize];
    let c1 = set[(propcheck::Rng::next_u64(&mut b) % 3) as usize];
    assert_eq!(v, format!("{c0}{c1}"));
}

#[test]
fn builtin_sets_have_expected_members() {
    let mut rng = r();
    for _ in 0..50 {
        let v = ascii_printable(0..30).new_value(&mut rng, 0).unwrap();
        assert!(v.chars().all(|c| (' '..='~').contains(&c)));
        let w = ascii_letters(1..30).new_value(&mut rng, 0).unwrap();
        assert!(w.chars().all(|c| c.is_ascii_alphabetic()));
    }
}

#[test]
fn charset_shrinks_stay_in_set_and_length() {
    let s = ascii_digits(2..8);
    let cands = s.shrink_value(&"57390".to_string());
    assert!(!cands.is_empty());
    for c in &cands {
        assert!(c.len() >= 2 && c.len() < 8, "{c:?}");
        assert!(c.chars().all(|ch| ch.is_ascii_digit()), "{c:?}");
    }
}
