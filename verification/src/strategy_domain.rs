//! Strategies for strings shaped like common domain values: email-like,
//! URL-like, UUID-like, dotted IPv4 and ISO 8601-like timestamps.
//!
//! These are approximations of the shapes, not implementations of the
//! standards (hence the `*_like` names): they suit crash-resistance tests of
//! parsers and round-trip tests of serializers, not conformance tests.
//!
//! None of them shrinks: removing a character from a structured string
//! breaks its structure and tends to produce a different failure than the
//! one being minimized.
use vstd::prelude::*;
use crate::rng::{Rng, XorShift64};
use crate::strategy::Strategy;
use crate::strategy_str::{ascii_letters_lower, hex_string, lower_chars, hex_chars, CharSetString};
use crate::text::{decimal, padded, push_decimal, push_padded, string_push, string_push_str};

verus! {

/// A lowercase ASCII word of 1 to 9 letters.
pub open spec fn lower_word(w: Seq<char>) -> bool {
    &&& 1 <= w.len() < 10
    &&& forall|i: int| 0 <= i < w.len() ==> lower_chars().contains(#[trigger] w[i])
}

/// A lowercase hexadecimal word of exactly `n` digits.
pub open spec fn hex_word(w: Seq<char>, n: nat) -> bool {
    &&& w.len() == n
    &&& forall|i: int| 0 <= i < w.len() ==> hex_chars().contains(#[trigger] w[i])
}

/// The top-level domains that email-like and URL-like values end with.
pub open spec fn common_tlds() -> Seq<Seq<char>> {
    seq![seq!['c', 'o', 'm'], seq!['o', 'r', 'g'], seq!['n', 'e', 't'], seq!['i', 'o']]
}

/// Appends the top-level domain at `k` (taken modulo their number).
fn push_tld(s: &mut String, k: usize)
    requires
        k < 4,
    ensures
        final(s)@ == old(s)@ + common_tlds()[k as int],
{
    proof {
        reveal_strlit("com");
        reveal_strlit("org");
        reveal_strlit("net");
        reveal_strlit("io");
    }
    if k == 0 {
        string_push_str(s, "com");
    } else if k == 1 {
        string_push_str(s, "org");
    } else if k == 2 {
        string_push_str(s, "net");
    } else {
        string_push_str(s, "io");
    }
}

/// A lowercase word of 1 to 9 letters, drawn as `ascii_letters_lower(1..10)`
/// draws it.
fn lower_word_value(rng: &mut XorShift64, size: usize) -> (r: String)
    ensures
        lower_word(r@),
{
    let strat = ascii_letters_lower(1..10);
    match strat.new_value(rng, size) {
        Ok(w) => w,
        Err(_) => String::new(),
    }
}

/// A lowercase hex word of exactly `n` digits.
fn hex_word_value(rng: &mut XorShift64, size: usize, n: usize) -> (r: String)
    requires
        n < usize::MAX,
    ensures
        hex_word(r@, n as nat),
{
    let strat = hex_string(n..n + 1);
    match strat.new_value(rng, size) {
        Ok(w) => w,
        Err(_) => String::new(),
    }
}

/// Generates `<local>@<domain>.<tld>`: two lowercase words of 1 to 9
/// letters and one of `com`, `org`, `net`, `io`.
pub struct EmailLike;

/// The email-like strategy.
pub fn email_like() -> (r: EmailLike) {
    EmailLike
}

impl Strategy for EmailLike {
    type Value = String;

    open spec fn always_some(&self) -> bool {
        true
    }

    open spec fn wf(&self) -> bool {
        true
    }

    open spec fn produces(&self, s: String) -> bool {
        exists|local: Seq<char>, domain: Seq<char>, k: int|
            {
                &&& lower_word(local)
                &&& lower_word(domain)
                &&& 0 <= k < 4
                &&& s@ == local + seq!['@'] + domain + seq!['.'] + common_tlds()[k]
            }
    }

    open spec fn shrinks_to(&self, s: String, r: Seq<String>) -> bool {
        r.len() == 0
    }

    fn new_value(&self, rng: &mut XorShift64, size: usize) -> (r: Result<String, String>)
        ensures
            r is Ok,
    {
        let local = lower_word_value(rng, size);
        let domain = lower_word_value(rng, size);
        let k = rng.gen_range_usize(0, 4);
        let mut s = String::new();
        string_push_str(&mut s, local.as_str());
        string_push(&mut s, '@');
        string_push_str(&mut s, domain.as_str());
        string_push(&mut s, '.');
        push_tld(&mut s, k);
        assert(s@ == local@ + seq!['@'] + domain@ + seq!['.'] + common_tlds()[k as int]);
        Ok(s)
    }

    fn shrink_value(&self, value: &String) -> (r: Vec<String>) {
        Vec::new()
    }
}

/// Generates `8-4-4-4-12` groups of lowercase hex digits separated by
/// dashes.
pub struct UuidLike;

/// The UUID-like strategy.
pub fn uuid_like() -> (r: UuidLike) {
    UuidLike
}

impl Strategy for UuidLike {
    type Value = String;

    open spec fn always_some(&self) -> bool {
        true
    }

    open spec fn wf(&self) -> bool {
        true
    }

    open spec fn produces(&self, s: String) -> bool {
        exists|a: Seq<char>, b: Seq<char>, c: Seq<char>, d: Seq<char>, e: Seq<char>|
            {
                &&& hex_word(a, 8)
                &&& hex_word(b, 4)
                &&& hex_word(c, 4)
                &&& hex_word(d, 4)
                &&& hex_word(e, 12)
                &&& s@ == a + seq!['-'] + b + seq!['-'] + c + seq!['-'] + d + seq!['-'] + e
            }
    }

    open spec fn shrinks_to(&self, s: String, r: Seq<String>) -> bool {
        r.len() == 0
    }

    fn new_value(&self, rng: &mut XorShift64, size: usize) -> (r: Result<String, String>)
        ensures
            r is Ok,
    {
        let a = hex_word_value(rng, size, 8);
        let b = hex_word_value(rng, size, 4);
        let c = hex_word_value(rng, size, 4);
        let d = hex_word_value(rng, size, 4);
        let e = hex_word_value(rng, size, 12);
        let mut s = String::new();
        string_push_str(&mut s, a.as_str());
        string_push(&mut s, '-');
        string_push_str(&mut s, b.as_str());
        string_push(&mut s, '-');
        string_push_str(&mut s, c.as_str());
        string_push(&mut s, '-');
        string_push_str(&mut s, d.as_str());
        string_push(&mut s, '-');
        string_push_str(&mut s, e.as_str());
        assert(s@ == a@ + seq!['-'] + b@ + seq!['-'] + c@ + seq!['-'] + d@ + seq!['-'] + e@);
        Ok(s)
    }

    fn shrink_value(&self, value: &String) -> (r: Vec<String>) {
        Vec::new()
    }
}

/// Generates `a.b.c.d` with each octet drawn uniformly from `0..=255`.
/// Reserved addresses are not excluded.
pub struct Ipv4Dotted;

/// The dotted-IPv4 strategy.
pub fn ipv4_dotted() -> (r: Ipv4Dotted) {
    Ipv4Dotted
}

impl Strategy for Ipv4Dotted {
    type Value = String;

    open spec fn always_some(&self) -> bool {
        true
    }

    open spec fn wf(&self) -> bool {
        true
    }

    open spec fn produces(&self, s: String) -> bool {
        exists|a: nat, b: nat, c: nat, d: nat|
            {
                &&& a < 256 && b < 256 && c < 256 && d < 256
                &&& s@ == decimal(a) + seq!['.'] + decimal(b) + seq!['.'] + decimal(c) + seq!['.'] + decimal(d)
            }
    }

    open spec fn shrinks_to(&self, s: String, r: Seq<String>) -> bool {
        r.len() == 0
    }

    /// Each octet is the next word modulo 256.
    fn new_value(&self, rng: &mut XorShift64, size: usize) -> (r: Result<String, String>)
        ensures
            r matches Ok(s) && s@ == decimal((old(rng).nth_output(0) % 256) as nat) + seq!['.']
                + decimal((old(rng).nth_output(1) % 256) as nat) + seq!['.'] + decimal(
                (old(rng).nth_output(2) % 256) as nat,
            ) + seq!['.'] + decimal((old(rng).nth_output(3) % 256) as nat),
    {
        let ghost r0 = *rng;
        let a = rng.gen_range_usize(0, 256);
        let ghost r1 = *rng;
        let b = rng.gen_range_usize(0, 256);
        let ghost r2 = *rng;
        let c = rng.gen_range_usize(0, 256);
        let ghost r3 = *rng;
        let d = rng.gen_range_usize(0, 256);
        proof {
            assert(r1.nth_output(0) == r0.nth_output(1));
            assert(r2.nth_output(0) == r1.nth_output(1));
            assert(r2.nth_output(0) == r0.nth_output(2));
            assert(r3.nth_output(0) == r2.nth_output(1));
            assert(r3.nth_output(0) == r0.nth_output(3));
        }
        let mut s = String::new();
        push_decimal(&mut s, a as u64);
        string_push(&mut s, '.');
        push_decimal(&mut s, b as u64);
        string_push(&mut s, '.');
        let ghost half = s@;
        assert(half == decimal(a as nat) + seq!['.'] + decimal(b as nat) + seq!['.']);
        push_decimal(&mut s, c as u64);
        string_push(&mut s, '.');
        push_decimal(&mut s, d as u64);
        assert(s@ == half + decimal(c as nat) + seq!['.'] + decimal(d as nat));
        assert(s@ == decimal(a as nat) + seq!['.'] + decimal(b as nat) + seq!['.'] + decimal(c as nat) + seq!['.'] + decimal(d as nat));
        Ok(s)
    }

    fn shrink_value(&self, value: &String) -> (r: Vec<String>) {
        Vec::new()
    }
}

/// Generates `YYYY-MM-DDTHH:MM:SSZ` with the year below 10000, the month in
/// `1..=12`, the day in `1..=28` (so that no month or leap year is ever
/// wrong), the hour below 24 and the minutes and seconds below 60.
pub struct Iso8601Date;

/// The ISO 8601-like timestamp strategy.
pub fn iso8601_date() -> (r: Iso8601Date) {
    Iso8601Date
}

impl Strategy for Iso8601Date {
    type Value = String;

    open spec fn always_some(&self) -> bool {
        true
    }

    open spec fn wf(&self) -> bool {
        true
    }

    open spec fn produces(&self, s: String) -> bool {
        exists|y: nat, mo: nat, d: nat, h: nat, mi: nat, se: nat|
            {
                &&& y < 10000 && 1 <= mo <= 12 && 1 <= d <= 28 && h < 24 && mi < 60 && se < 60
                &&& s@ == padded(y, 4) + seq!['-'] + padded(mo, 2) + seq!['-'] + padded(d, 2) + seq!['T']
                    + padded(h, 2) + seq![':'] + padded(mi, 2) + seq![':'] + padded(se, 2) + seq!['Z']
            }
    }

    open spec fn shrinks_to(&self, s: String, r: Seq<String>) -> bool {
        r.len() == 0
    }

    fn new_value(&self, rng: &mut XorShift64, size: usize) -> (r: Result<String, String>)
        ensures
            r is Ok,
    {
        let year = rng.gen_range_usize(0, 10_000);
        let month = rng.gen_range_usize(1, 13);
        let day = rng.gen_range_usize(1, 29);
        let hour = rng.gen_range_usize(0, 24);
        let minute = rng.gen_range_usize(0, 60);
        let second = rng.gen_range_usize(0, 60);
        let mut s = String::new();
        push_padded(&mut s, year as u64, 4);
        string_push(&mut s, '-');
        push_padded(&mut s, month as u64, 2);
        string_push(&mut s, '-');
        push_padded(&mut s, day as u64, 2);
        let ghost date = s@;
        assert(date == padded(year as nat, 4) + seq!['-'] + padded(month as nat, 2) + seq!['-'] + padded(day as nat, 2));
        string_push(&mut s, 'T');
        push_padded(&mut s, hour as u64, 2);
        string_push(&mut s, ':');
        push_padded(&mut s, minute as u64, 2);
        string_push(&mut s, ':');
        push_padded(&mut s, second as u64, 2);
        string_push(&mut s, 'Z');
        assert(s@ == date + seq!['T'] + padded(hour as nat, 2) + seq![':'] + padded(minute as nat, 2) + seq![':'] + padded(second as nat, 2) + seq!['Z']);
        assert(s@ == padded(year as nat, 4) + seq!['-'] + padded(month as nat, 2) + seq!['-'] + padded(day as nat, 2)
            + seq!['T'] + padded(hour as nat, 2) + seq![':'] + padded(minute as nat, 2) + seq![':'] + padded(second as nat, 2)
            + seq!['Z']);
        Ok(s)
    }

    fn shrink_value(&self, value: &String) -> (r: Vec<String>) {
        Vec::new()
    }
}

/// Generates `<scheme>://<host>.<tld>[:<port>][/<path>]`: a scheme from the
/// configured list, a lowercase host of 1 to 9 letters, one of `com`,
/// `org`, `net`, `io`, a port only when a port range is configured, and —
/// one time in two — a lowercase path of 1 to 9 letters.
pub struct UrlLike {
    schemes: &'static [&'static str],
    port_range: Option<core::ops::Range<u16>>,
}

impl UrlLike {
    /// The schemes to pick from.
    pub closed spec fn spec_schemes(&self) -> Seq<&'static str> {
        self.schemes@
    }

    /// The range ports are drawn from, when ports are emitted.
    pub closed spec fn spec_port_range(&self) -> Option<core::ops::Range<u16>> {
        self.port_range
    }

    /// Replaces the list of schemes (for example `&["ws", "wss"]`).
    pub fn with_schemes(self, schemes: &'static [&'static str]) -> (r: Self)
        ensures
            r.spec_schemes() == schemes@,
            r.spec_port_range() == self.spec_port_range(),
    {
        UrlLike { schemes, port_range: self.port_range }
    }

    /// Emits `:port` with the port drawn uniformly from `port_range`.
    pub fn with_port_range(self, port_range: core::ops::Range<u16>) -> (r: Self)
        ensures
            r.spec_schemes() == self.spec_schemes(),
            r.spec_port_range() == Some(port_range),
    {
        UrlLike { schemes: self.schemes, port_range: Some(port_range) }
    }
}

impl Default for UrlLike {
    /// `http` and `https`, no port.
    fn default() -> (r: Self)
        ensures
            r.spec_schemes().len() == 2,
            r.spec_schemes()[0]@ == seq!['h', 't', 't', 'p'],
            r.spec_schemes()[1]@ == seq!['h', 't', 't', 'p', 's'],
            r.spec_port_range() is None,
    {
        proof {
            reveal_strlit("http");
            reveal_strlit("https");
        }
        UrlLike { schemes: &["http", "https"], port_range: None }
    }
}

/// The URL-like strategy with the default settings: `http` or `https`, no
/// port.
pub fn url_like() -> (r: UrlLike)
    ensures
        r.spec_schemes().len() == 2,
        r.spec_schemes()[0]@ == seq!['h', 't', 't', 'p'],
        r.spec_schemes()[1]@ == seq!['h', 't', 't', 'p', 's'],
        r.spec_port_range() is None,
{
    UrlLike::default()
}

/// `part` is what follows the host for the given port setting: nothing
/// without a range, else `:` and a port of the range in decimal.
pub open spec fn port_part(port_range: Option<core::ops::Range<u16>>, part: Seq<char>) -> bool {
    match port_range {
        None => part.len() == 0,
        Some(r) => exists|p: nat| r.start <= p < r.end && part == seq![':'] + decimal(p),
    }
}

/// `part` is an optional path: nothing, or `/` and a lowercase word.
pub open spec fn path_part(part: Seq<char>) -> bool {
    part.len() == 0 || exists|w: Seq<char>| lower_word(w) && part == seq!['/'] + w
}

impl Strategy for UrlLike {
    type Value = String;

    open spec fn always_some(&self) -> bool {
        true
    }

    open spec fn wf(&self) -> bool {
        &&& self.spec_schemes().len() > 0
        &&& self.spec_port_range() matches Some(r) ==> r.start < r.end
    }

    open spec fn produces(&self, s: String) -> bool {
        exists|k: int, host: Seq<char>, t: int, port: Seq<char>, path: Seq<char>|
            {
                &&& 0 <= k < self.spec_schemes().len()
                &&& lower_word(host)
                &&& 0 <= t < 4
                &&& port_part(self.spec_port_range(), port)
                &&& path_part(path)
                &&& s@ == self.spec_schemes()[k]@ + seq![':', '/', '/'] + host + seq!['.'] + common_tlds()[t] + port + path
            }
    }

    open spec fn shrinks_to(&self, s: String, r: Seq<String>) -> bool {
        r.len() == 0
    }

    fn new_value(&self, rng: &mut XorShift64, size: usize) -> (r: Result<String, String>)
        ensures
            r is Ok,
    {
        let k = rng.gen_range_usize(0, self.schemes.len());
        let scheme: &str = self.schemes[k];
        let host = lower_word_value(rng, size);
        let t = rng.gen_range_usize(0, 4);
        let mut s = String::new();
        string_push_str(&mut s, scheme);
        proof {
            reveal_strlit("://");
        }
        string_push_str(&mut s, "://");
        string_push_str(&mut s, host.as_str());
        string_push(&mut s, '.');
        push_tld(&mut s, t);
        let ghost head = s@;
        assert(head == scheme@ + seq![':', '/', '/'] + host@ + seq!['.'] + common_tlds()[t as int]);
        let ghost mut port: Seq<char> = seq![];
        match &self.port_range {
            Some(range) => {
                let p = rng.gen_range_usize(range.start as usize, range.end as usize);
                string_push(&mut s, ':');
                push_decimal(&mut s, p as u64);
                proof {
                    port = seq![':'] + decimal(p as nat);
                }
            },
            None => {},
        }
        assert(s@ == head + port);
        assert(port_part(self.spec_port_range(), port));
        let ghost mut path: Seq<char> = seq![];
        if rng.gen_bool() {
            let w = lower_word_value(rng, size);
            string_push(&mut s, '/');
            string_push_str(&mut s, w.as_str());
            proof {
                path = seq!['/'] + w@;
            }
        }
        assert(s@ == head + port + path);
        assert(path_part(path));
        Ok(s)
    }

    fn shrink_value(&self, value: &String) -> (r: Vec<String>) {
        Vec::new()
    }
}

} // verus!
