use propcheck::rng::XorShift64;
use propcheck::strategy::domain::{email_like, ipv4_dotted, iso8601_date, url_like, uuid_like};
use propcheck::strategy::Strategy;

const COMMON_TLDS: &[&str] = &["com", "org", "net", "io"];

fn r() -> XorShift64 {
    XorShift64::seed_from_u64(0xBADC0DE)
}

#[test]
fn email_like_contains_at_and_dot() {
    let s = email_like();
    let mut rng = r();
    for _ in 0..50 {
        let v = s.new_value(&mut rng, 16).unwrap();
        assert_eq!(v.matches('@').count(), 1, "exactly one '@': {v}");
        assert!(v.contains('.'), "missing '.': {v}");
        let tld = v.rsplit('.').next().unwrap();
        assert!(COMMON_TLDS.contains(&tld), "tld '{tld}' not in COMMON_TLDS");
    }
}

#[test]
fn email_like_shrink_is_empty() {
    let v = email_like().new_value(&mut r(), 16).unwrap();
    assert!(email_like().shrink_value(&v).is_empty());
}

#[test]
fn url_like_default_uses_http_or_https() {
    let s = url_like();
    let mut rng = r();
    for _ in 0..50 {
        let v = s.new_value(&mut rng, 16).unwrap();
        assert!(v.starts_with("http://") || v.starts_with("https://"), "unexpected scheme: {v}");
    }
}

#[test]
fn url_like_with_custom_schemes() {
    let s = url_like().with_schemes(&["ws", "wss"]);
    let mut rng = r();
    for _ in 0..50 {
        let v = s.new_value(&mut rng, 16).unwrap();
        assert!(v.starts_with("ws://") || v.starts_with("wss://"), "expected ws(s) scheme: {v}");
    }
}

#[test]
fn url_like_with_port_range_emits_port() {
    let s = url_like().with_port_range(8000..9000);
    let mut rng = r();
    for _ in 0..50 {
        let v = s.new_value(&mut rng, 16).unwrap();
        let after_scheme = v.split("://").nth(1).expect("scheme");
        let host_and_port = after_scheme.split('/').next().unwrap();
        let port_str = host_and_port.rsplit(':').next().expect("port present");
        let port: u32 = port_str.parse().expect("port is numeric");
        assert!((8000..9000).contains(&port), "port {port} out of range");
    }
}

#[test]
fn url_like_default_omits_port() {
    let s = url_like();
    let mut rng = r();
    for _ in 0..50 {
        let v = s.new_value(&mut rng, 16).unwrap();
        let after_scheme = v.split("://").nth(1).expect("scheme");
        assert!(!after_scheme.contains(':'), "unexpected port in default url_like: {v}");
    }
}

#[test]
fn uuid_like_has_correct_shape() {
    let s = uuid_like();
    let mut rng = r();
    for _ in 0..50 {
        let v = s.new_value(&mut rng, 16).unwrap();
        assert_eq!(v.len(), 36, "wrong length: {v}");
        let parts: Vec<&str> = v.split('-').collect();
        assert_eq!(parts.len(), 5, "wrong dash count: {v}");
        assert_eq!(parts[0].len(), 8);
        assert_eq!(parts[1].len(), 4);
        assert_eq!(parts[2].len(), 4);
        assert_eq!(parts[3].len(), 4);
        assert_eq!(parts[4].len(), 12);
        for p in &parts {
            assert!(p.chars().all(|c| c.is_ascii_hexdigit()), "non-hex char in {p}");
        }
    }
}

#[test]
fn ipv4_dotted_has_four_octets_in_range() {
    let s = ipv4_dotted();
    let mut rng = r();
    for _ in 0..50 {
        let v = s.new_value(&mut rng, 0).unwrap();
        let octets: Vec<&str> = v.split('.').collect();
        assert_eq!(octets.len(), 4, "wrong octet count: {v}");
        for o in &octets {
            let n: u16 = o.parse().expect("numeric octet");
            assert!(n < 256, "octet {n} out of range");
        }
    }
}

#[test]
fn iso8601_date_matches_shape_and_field_ranges() {
    let s = iso8601_date();
    let mut rng = r();
    for _ in 0..50 {
        let v = s.new_value(&mut rng, 0).unwrap();
        assert_eq!(v.len(), 20, "wrong length: {v}");
        assert!(v.ends_with('Z'), "missing trailing Z: {v}");
        let bytes = v.as_bytes();
        assert_eq!(bytes[4], b'-');
        assert_eq!(bytes[7], b'-');
        assert_eq!(bytes[10], b'T');
        assert_eq!(bytes[13], b':');
        assert_eq!(bytes[16], b':');
        let year: u32 = v[0..4].parse().unwrap();
        let month: u32 = v[5..7].parse().unwrap();
        let day: u32 = v[8..10].parse().unwrap();
        let hour: u32 = v[11..13].parse().unwrap();
        let minute: u32 = v[14..16].parse().unwrap();
        let second: u32 = v[17..19].parse().unwrap();
        assert!(year < 10_000);
        assert!((1..=12).contains(&month));
        assert!((1..=28).contains(&day));
        assert!(hour < 24);
        assert!(minute < 60);
        assert!(second < 60);
    }
}

#[test]
fn ipv4_octets_are_the_next_four_words_mod_256() {
    let mut a = XorShift64::seed_from_u64(21);
    let mut b = XorShift64::seed_from_u64(21);
    let v = ipv4_dotted().new_value(&mut a, 0).unwrap();
    let o: Vec<u64> = (0..4).map(|_| propcheck::Rng::next_u64(&mut b) % 256).collect();
    assert_eq!(v, format!("{}.{}.{}.{}", o[0], o[1], o[2], o[3]));
}
