//! Strategies for constrained `String`s.
//!
//! The built-in character sets cover what parser tests usually need: ASCII
//! digits, letters, alphanumerics, lowercase hex, printable ASCII, and any
//! user-chosen set through [`from_char_set`].
//!
//! Every strategy here shrinks the same way: first the length, toward the
//! minimum (the empty string when allowed, then halved prefixes, then one
//! character removed), then each character, replaced by the first character
//! of the set (its canonical value).
use vstd::prelude::*;
use crate::rng::{Rng, XorShift64};
use crate::shrink::{halvings, lemma_halvings_bounds};
use crate::strategy::{Strategy, len_in};
use crate::text::{string_from_chars, chars_of};

verus! {

/// The `n` characters with consecutive codes starting at `lo`.
pub open spec fn code_run(lo: nat, n: nat) -> Seq<char> {
    Seq::new(n, |i: int| (lo + i) as char)
}

/// `'0'..='9'`.
pub open spec fn digit_chars() -> Seq<char> {
    code_run(0x30, 10)
}

/// `'a'..='z'`.
pub open spec fn lower_chars() -> Seq<char> {
    code_run(0x61, 26)
}

/// `'A'..='Z'`.
pub open spec fn upper_chars() -> Seq<char> {
    code_run(0x41, 26)
}

/// `'0'..='9'` then `'a'..='f'`.
pub open spec fn hex_chars() -> Seq<char> {
    digit_chars() + code_run(0x61, 6)
}

/// Space through `'~'`.
pub open spec fn printable_chars() -> Seq<char> {
    code_run(0x20, 95)
}

/// The characters with codes `lo..lo + n`, all below the surrogates.
fn push_code_run(out: &mut Vec<char>, lo: u32, n: u32)
    requires
        lo + n <= 0xD800,
    ensures
        final(out)@ == old(out)@ + code_run(lo as nat, n as nat),
{
    let ghost start = out@;
    let mut i: u32 = 0;
    while i < n
        invariant
            i <= n,
            lo + n <= 0xD800,
            out@ == start + code_run(lo as nat, i as nat),
        decreases n - i,
    {
        let code = lo + i;
        match crate::text::char_from_u32(code) {
            Some(c) => {
                out.push(c);
            },
            None => {
                assert(false);
            },
        }
        i = i + 1;
        assert(out@ == start + code_run(lo as nat, i as nat));
    }
}

/// Generates strings of characters drawn uniformly from a fixed set, with a
/// length in `[min, max)` (exactly `min` when that range is empty).
pub struct CharSetString {
    chars: Vec<char>,
    min_len: usize,
    max_len: usize,
}

impl CharSetString {
    /// The character set; its first character is the canonical one.
    pub closed spec fn spec_chars(&self) -> Seq<char> {
        self.chars@
    }

    /// The smallest length.
    pub closed spec fn spec_min(&self) -> usize {
        self.min_len
    }

    /// The exclusive bound on the length (when above the smallest).
    pub closed spec fn spec_max(&self) -> usize {
        self.max_len
    }
}

/// `s` without the character at `i`, for each `i` in order.
pub open spec fn removals(s: Seq<char>) -> Seq<Seq<char>> {
    Seq::new(s.len(), |i: int| s.remove(i))
}

/// The prefixes of `s` whose lengths are the halvings of its length and at
/// least `min`.
pub open spec fn halved_prefixes(s: Seq<char>, min: nat) -> Seq<Seq<char>> {
    halvings(s.len(), s.len()).filter(|l: nat| l >= min).map_values(|l: nat| s.take(l as int))
}

/// The positions `0..n`.
pub open spec fn positions(n: nat) -> Seq<int> {
    Seq::new(n, |i: int| i)
}

/// Whether the character of `s` at a position differs from `t`.
pub open spec fn differs_at(s: Seq<char>, t: char) -> spec_fn(int) -> bool {
    |i: int| s[i] != t
}

/// `s` with the character at a position replaced by `t`.
pub open spec fn replaced_at(s: Seq<char>, t: char) -> spec_fn(int) -> Seq<char> {
    |i: int| s.update(i, t)
}

/// `s` with the character at `i` replaced by `t`, for each `i` in order
/// whose character differs from `t`.
pub open spec fn collapses(s: Seq<char>, t: char) -> Seq<Seq<char>> {
    positions(s.len()).filter(differs_at(s, t)).map_values(replaced_at(s, t))
}

/// The shrink candidates of `s` for a set whose canonical character is `t`
/// and a minimum length `min`.
pub open spec fn charset_shrinks(s: Seq<char>, t: char, min: nat) -> Seq<Seq<char>> {
    let shorter = if s.len() > min {
        (if min == 0 {
            seq![Seq::<char>::empty()]
        } else {
            Seq::<Seq<char>>::empty()
        }) + halved_prefixes(s, min) + removals(s)
    } else {
        Seq::<Seq<char>>::empty()
    };
    shorter + collapses(s, t)
}

/// The first `n` characters of `cs`.
fn chars_prefix(cs: &Vec<char>, n: usize) -> (r: Vec<char>)
    requires
        n <= cs@.len(),
    ensures
        r@ == cs@.take(n as int),
{
    let mut out: Vec<char> = Vec::new();
    let mut i: usize = 0;
    while i < n
        invariant
            i <= n,
            n <= cs@.len(),
            out@ == cs@.take(i as int),
        decreases n - i,
    {
        out.push(cs[i]);
        i = i + 1;
        assert(out@ == cs@.take(i as int));
    }
    out
}

/// `cs` without the character at `k`.
fn chars_without(cs: &Vec<char>, k: usize) -> (r: Vec<char>)
    requires
        k < cs@.len(),
    ensures
        r@ == cs@.remove(k as int),
{
    let mut out: Vec<char> = Vec::new();
    let mut i: usize = 0;
    while i < cs.len()
        invariant
            k < cs@.len(),
            i <= cs@.len(),
            out@ == (if i <= k { cs@.take(i as int) } else { cs@.take(i as int).remove(k as int) }),
        decreases cs@.len() - i,
    {
        if i != k {
            out.push(cs[i]);
        }
        i = i + 1;
        assert(out@ == (if i <= k { cs@.take(i as int) } else { cs@.take(i as int).remove(k as int) }));
    }
    assert(cs@.take(cs@.len() as int) == cs@);
    out
}

/// `cs` with the character at `k` replaced by `c`.
fn chars_replaced(cs: &Vec<char>, k: usize, c: char) -> (r: Vec<char>)
    requires
        k < cs@.len(),
    ensures
        r@ == cs@.update(k as int, c),
{
    let mut out: Vec<char> = Vec::new();
    let mut i: usize = 0;
    while i < cs.len()
        invariant
            k < cs@.len(),
            i <= cs@.len(),
            out@ == cs@.update(k as int, c).take(i as int),
        decreases cs@.len() - i,
    {
        if i == k {
            out.push(c);
        } else {
            out.push(cs[i]);
        }
        i = i + 1;
        assert(out@ == cs@.update(k as int, c).take(i as int));
    }
    assert(cs@.update(k as int, c).take(cs@.len() as int) == cs@.update(k as int, c));
    out
}

impl Strategy for CharSetString {
    type Value = String;

    open spec fn always_some(&self) -> bool {
        true
    }

    open spec fn wf(&self) -> bool {
        self.spec_chars().len() > 0
    }

    open spec fn produces(&self, s: String) -> bool {
        &&& len_in(self.spec_min(), self.spec_max(), s@.len())
        &&& forall|i: int| 0 <= i < s@.len() ==> self.spec_chars().contains(#[trigger] s@[i])
    }

    open spec fn shrinks_to(&self, s: String, r: Seq<String>) -> bool {
        let expected = charset_shrinks(s@, self.spec_chars()[0], self.spec_min() as nat);
        &&& r.len() == expected.len()
        &&& forall|i: int| 0 <= i < r.len() ==> #[trigger] r[i]@ == expected[i]
    }

    /// A length drawn in `[min, max)` (no draw when that range is empty),
    /// then one draw per character, each picking from the set by the word
    /// modulo the set's size.
    fn new_value(&self, rng: &mut XorShift64, size: usize) -> (r: Result<String, String>)
        ensures
            r matches Ok(s) && {
                let off: nat = if self.spec_max() > self.spec_min() { 1 } else { 0 };
                &&& s@.len() == (if self.spec_max() > self.spec_min() {
                    self.spec_min() + old(rng).nth_output(0) as int % (self.spec_max() - self.spec_min())
                } else {
                    self.spec_min() as int
                })
                &&& forall|i: int| 0 <= i < s@.len() ==> #[trigger] s@[i] == self.spec_chars()[old(rng).nth_output((off + i) as nat) as int % self.spec_chars().len() as int]
            },
    {
        let ghost start = *rng;
        let len = if self.max_len > self.min_len {
            rng.gen_range_usize(self.min_len, self.max_len)
        } else {
            self.min_len
        };
        let ghost off: nat = if self.max_len > self.min_len { 1 } else { 0 };
        let mut cs: Vec<char> = Vec::new();
        let mut i: usize = 0;
        while i < len
            invariant
                self.wf(),
                i <= len,
                cs@.len() == i,
                forall|k: nat| #[trigger] rng.nth_output(k) == start.nth_output((k + off + i) as nat),
                forall|j: int| 0 <= j < i ==> #[trigger] cs@[j] == self.chars@[start.nth_output((off + j) as nat) as int % self.chars@.len() as int],
            decreases len - i,
        {
            let ghost before = *rng;
            let idx = rng.gen_range_usize(0, self.chars.len());
            assert(before.nth_output(0) == start.nth_output((off + i) as nat));
            cs.push(self.chars[idx]);
            i = i + 1;
            assert forall|k: nat| #[trigger] rng.nth_output(k) == start.nth_output((k + off + i) as nat) by {
                assert(rng.nth_output(k) == before.nth_output(k + 1));
            }
        }
        let s = string_from_chars(&cs);
        Ok(s)
    }

    /// Shorter strings first (respecting the minimum length), then each
    /// character collapsed to the canonical one.
    fn shrink_value(&self, value: &String) -> (r: Vec<String>) {
        let cs = chars_of(value);
        let n = cs.len();
        let ghost s = value@;
        let ghost t = self.chars@[0];
        let ghost min = self.min_len as nat;
        let ghost shorter: Seq<Seq<char>> = if n > self.min_len {
            (if self.min_len == 0 { seq![Seq::<char>::empty()] } else { Seq::<Seq<char>>::empty() })
                + halved_prefixes(s, min) + removals(s)
        } else {
            Seq::<Seq<char>>::empty()
        };
        let mut out: Vec<String> = Vec::new();
        if n > self.min_len {
            if self.min_len == 0 {
                out.push(String::new());
            }
            let ghost e: Seq<Seq<char>> = if self.min_len == 0 { seq![Seq::<char>::empty()] } else { Seq::<Seq<char>>::empty() };
            let ghost hs = halvings(n as nat, n as nat);
            let ghost keep = |l: nat| l >= min;
            let ghost mut taken: int = 0;
            let mut chunk: usize = n;
            while chunk / 2 > 0
                invariant
                    cs@ == s,
                    n == s.len(),
                    0 < chunk <= n,
                    keep == (|l: nat| l >= min),
                    min == self.min_len as nat,
                    0 <= taken <= hs.len(),
                    hs == halvings(n as nat, n as nat),
                    halvings(n as nat, chunk as nat) == hs.skip(taken),
                    out@.len() == e.len() + hs.take(taken).filter(keep).len(),
                    forall|j: int| 0 <= j < out@.len() ==> #[trigger] out@[j]@ == (e + hs.take(taken).filter(keep).map_values(|l: nat| s.take(l as int)))[j],
                decreases chunk,
            {
                let ghost old_chunk = chunk;
                chunk = chunk / 2;
                let new_len = n - chunk;
                proof {
                    let h = halvings(n as nat, old_chunk as nat);
                    assert(h == seq![new_len as nat] + halvings(n as nat, chunk as nat));
                    assert(hs.skip(taken)[0] == h[0]);
                    assert(hs.take(taken + 1) == hs.take(taken).push(new_len as nat));
                    hs.take(taken).lemma_filter_push(new_len as nat, keep);
                    assert(hs.skip(taken + 1) == h.skip(1));
                    taken = taken + 1;
                }
                if new_len >= self.min_len {
                    let p = chars_prefix(&cs, new_len);
                    let ghost before = out@;
                    out.push(string_from_chars(&p));
                    proof {
                        let m = hs.take(taken).filter(keep).map_values(|l: nat| s.take(l as int));
                        assert forall|j: int| 0 <= j < out@.len() implies #[trigger] out@[j]@ == (e + m)[j] by {
                            if j < out@.len() - 1 {
                                assert(out@[j] == before[j]);
                            }
                        }
                    }
                } else {
                    proof {
                        let m = hs.take(taken).filter(keep).map_values(|l: nat| s.take(l as int));
                        assert forall|j: int| 0 <= j < out@.len() implies #[trigger] out@[j]@ == (e + m)[j] by {
                        }
                    }
                }
            }
            proof {
                assert(hs.skip(taken).len() == 0);
                assert(hs.take(taken) == hs);
                assert(halved_prefixes(s, min) == hs.filter(keep).map_values(|l: nat| s.take(l as int)));
            }
            let ghost mid = out@.len();
            let mut i: usize = 0;
            while i < n
                invariant
                    cs@ == s,
                    n == s.len(),
                    i <= n,
                    out@.len() == mid + i,
                    mid == e.len() + halved_prefixes(s, min).len(),
                    forall|j: int| 0 <= j < mid ==> #[trigger] out@[j]@ == (e + halved_prefixes(s, min))[j],
                    forall|j: int| 0 <= j < i ==> #[trigger] out@[mid + j]@ == s.remove(j),
                decreases n - i,
            {
                let w = chars_without(&cs, i);
                let ghost before = out@;
                out.push(string_from_chars(&w));
                proof {
                    assert forall|j: int| 0 <= j < mid implies #[trigger] out@[j]@ == (e + halved_prefixes(s, min))[j] by {
                        assert(out@[j] == before[j]);
                    }
                    assert forall|j: int| 0 <= j < i + 1 implies #[trigger] out@[mid + j]@ == s.remove(j) by {
                        if j < i {
                            assert(out@[mid + j] == before[mid + j]);
                        }
                    }
                }
                i = i + 1;
            }
            proof {
                assert forall|j: int| 0 <= j < out@.len() implies #[trigger] out@[j]@ == shorter[j] by {
                    if j >= mid {
                        assert(out@[mid + (j - mid)]@ == s.remove(j - mid));
                    }
                }
            }
        }
        assert(out@.len() == shorter.len());
        let target = self.chars[0];
        let ghost idx = positions(n as nat);
        let ghost differs = differs_at(s, t);
        let ghost base = out@.len();
        let mut i: usize = 0;
        while i < n
            invariant
                cs@ == s,
                n == s.len(),
                target == t,
                i <= n,
                idx == positions(n as nat),
                differs == differs_at(s, t),
                base == shorter.len(),
                out@.len() == base + idx.take(i as int).filter(differs).len(),
                forall|j: int| 0 <= j < base ==> #[trigger] out@[j]@ == shorter[j],
                forall|j: int| 0 <= j < idx.take(i as int).filter(differs).len() ==> #[trigger] out@[base + j]@ == idx.take(i as int).filter(differs).map_values(replaced_at(s, t))[j],
            decreases n - i,
        {
            proof {
                assert(idx.take(i + 1) == idx.take(i as int).push(i as int));
                idx.take(i as int).lemma_filter_push(i as int, differs);
            }
            let ghost before = out@;
            if cs[i] != target {
                let v = chars_replaced(&cs, i, target);
                out.push(string_from_chars(&v));
            }
            proof {
                let f1 = idx.take(i as int).filter(differs);
                let f2 = idx.take(i + 1).filter(differs);
                assert forall|j: int| 0 <= j < base implies #[trigger] out@[j]@ == shorter[j] by {
                    assert(out@[j] == before[j]);
                }
                assert forall|j: int| 0 <= j < f2.len() implies #[trigger] out@[base + j]@ == f2.map_values(replaced_at(s, t))[j] by {
                    if j < f1.len() {
                        assert(out@[base + j] == before[base + j]);
                        assert(f2[j] == f1[j]);
                    }
                }
            }
            i = i + 1;
        }
        proof {
            assert(idx.take(n as int) == idx);
            let expected = charset_shrinks(s, t, min);
            assert(collapses(s, t) == idx.filter(differs).map_values(replaced_at(s, t)));
            assert(expected == shorter + collapses(s, t));
            assert forall|j: int| 0 <= j < out@.len() implies #[trigger] out@[j]@ == expected[j] by {
                if j >= base {
                    assert(out@[base + (j - base)]@ == collapses(s, t)[j - base]);
                }
            }
        }
        out
    }
}

/// Strings of ASCII digits `'0'..='9'`.
pub fn ascii_digits(len_range: core::ops::Range<usize>) -> (r: CharSetString)
    ensures
        r.spec_chars() == digit_chars(),
        r.spec_min() == len_range.start,
        r.spec_max() == len_range.end,
        r.wf(),
{
    let mut chars: Vec<char> = Vec::new();
    push_code_run(&mut chars, 0x30, 10);
    CharSetString { chars, min_len: len_range.start, max_len: len_range.end }
}

/// Strings of lowercase ASCII letters `'a'..='z'`.
pub fn ascii_letters_lower(len_range: core::ops::Range<usize>) -> (r: CharSetString)
    ensures
        r.spec_chars() == lower_chars(),
        r.spec_min() == len_range.start,
        r.spec_max() == len_range.end,
        r.wf(),
{
    let mut chars: Vec<char> = Vec::new();
    push_code_run(&mut chars, 0x61, 26);
    CharSetString { chars, min_len: len_range.start, max_len: len_range.end }
}

/// Strings of uppercase ASCII letters `'A'..='Z'`.
pub fn ascii_letters_upper(len_range: core::ops::Range<usize>) -> (r: CharSetString)
    ensures
        r.spec_chars() == upper_chars(),
        r.spec_min() == len_range.start,
        r.spec_max() == len_range.end,
        r.wf(),
{
    let mut chars: Vec<char> = Vec::new();
    push_code_run(&mut chars, 0x41, 26);
    CharSetString { chars, min_len: len_range.start, max_len: len_range.end }
}

/// Strings of ASCII letters, lowercase then uppercase.
pub fn ascii_letters(len_range: core::ops::Range<usize>) -> (r: CharSetString)
    ensures
        r.spec_chars() == lower_chars() + upper_chars(),
        r.spec_min() == len_range.start,
        r.spec_max() == len_range.end,
        r.wf(),
{
    let mut chars: Vec<char> = Vec::new();
    push_code_run(&mut chars, 0x61, 26);
    push_code_run(&mut chars, 0x41, 26);
    CharSetString { chars, min_len: len_range.start, max_len: len_range.end }
}

/// Strings of ASCII digits and letters.
pub fn ascii_alphanumeric(len_range: core::ops::Range<usize>) -> (r: CharSetString)
    ensures
        r.spec_chars() == digit_chars() + lower_chars() + upper_chars(),
        r.spec_min() == len_range.start,
        r.spec_max() == len_range.end,
        r.wf(),
{
    let mut chars: Vec<char> = Vec::new();
    push_code_run(&mut chars, 0x30, 10);
    push_code_run(&mut chars, 0x61, 26);
    push_code_run(&mut chars, 0x41, 26);
    CharSetString { chars, min_len: len_range.start, max_len: len_range.end }
}

/// Lowercase hexadecimal strings such as `"deadbeef"`.
pub fn hex_string(len_range: core::ops::Range<usize>) -> (r: CharSetString)
    ensures
        r.spec_chars() == hex_chars(),
        r.spec_min() == len_range.start,
        r.spec_max() == len_range.end,
        r.wf(),
{
    let mut chars: Vec<char> = Vec::new();
    push_code_run(&mut chars, 0x30, 10);
    push_code_run(&mut chars, 0x61, 6);
    CharSetString { chars, min_len: len_range.start, max_len: len_range.end }
}

/// Printable ASCII strings (space through `'~'`).
pub fn ascii_printable(len_range: core::ops::Range<usize>) -> (r: CharSetString)
    ensures
        r.spec_chars() == printable_chars(),
        r.spec_min() == len_range.start,
        r.spec_max() == len_range.end,
        r.wf(),
{
    let mut chars: Vec<char> = Vec::new();
    push_code_run(&mut chars, 0x20, 95);
    CharSetString { chars, min_len: len_range.start, max_len: len_range.end }
}

/// Strings of characters from `chars`; its first character is the
/// canonical one that shrinking collapses characters to.
pub fn from_char_set(chars: Vec<char>, len_range: core::ops::Range<usize>) -> (r: CharSetString)
    requires
        chars@.len() > 0,
    ensures
        r.spec_chars() == chars@,
        r.spec_min() == len_range.start,
        r.spec_max() == len_range.end,
        r.wf(),
{
    CharSetString { chars, min_len: len_range.start, max_len: len_range.end }
}

/// Every element a filter keeps comes from the filtered sequence.
proof fn lemma_filter_subset<A>(s: Seq<A>, pred: spec_fn(A) -> bool)
    ensures
        forall|i: int| 0 <= i < s.filter(pred).len() ==> s.contains(#[trigger] s.filter(pred)[i]),
    decreases s.len(),
{
    reveal(Seq::filter);
    if s.len() > 0 {
        let d = s.drop_last();
        lemma_filter_subset(d, pred);
        let out = s.filter(pred);
        assert forall|i: int| 0 <= i < out.len() implies s.contains(#[trigger] out[i]) by {
            if pred(s.last()) && i == out.len() - 1 {
                assert(out[i] == s[s.len() - 1]);
            } else {
                assert(out[i] == d.filter(pred)[i]);
                assert(d.contains(d.filter(pred)[i]));
                let j = choose|j: int| 0 <= j < d.len() && d[j] == d.filter(pred)[i];
                assert(s[j] == d[j]);
            }
        }
    }
}

/// A string the strategy may produce: its length allowed, its characters in
/// the set.
pub open spec fn fits_set(chars: Seq<char>, min: usize, max: usize, c: Seq<char>) -> bool {
    &&& len_in(min, max, c.len())
    &&& forall|i: int| 0 <= i < c.len() ==> chars.contains(#[trigger] c[i])
}

/// Shrinking never leaves what the strategy produces: each candidate of a
/// produced string keeps a length the strategy allows and characters from
/// its set.
pub proof fn law_charset_shrinks_stay_produced(st: CharSetString, s: String, r: Seq<String>)
    requires
        st.wf(),
        st.produces(s),
        st.shrinks_to(s, r),
    ensures
        forall|k: int| 0 <= k < r.len() ==> st.produces(#[trigger] r[k]),
{
    let cs = st.spec_chars();
    let min = st.spec_min();
    let max = st.spec_max();
    let v = s@;
    let n = v.len();
    let t = cs[0];
    assert(cs.contains(t));
    let ex = charset_shrinks(v, t, min as nat);
    let z: Seq<Seq<char>> = if min == 0 {
        seq![Seq::<char>::empty()]
    } else {
        Seq::<Seq<char>>::empty()
    };
    let hp = halved_prefixes(v, min as nat);
    let rms = removals(v);
    let cl = collapses(v, t);
    let hv = halvings(n, n);
    let keep = |l: nat| l >= min as nat;
    lemma_halvings_bounds(n, n);
    lemma_filter_subset(hv, keep);
    let ps = positions(n);
    lemma_filter_subset(ps, differs_at(v, t));
    assert forall|j: int| 0 <= j < cl.len() implies fits_set(cs, min, max, #[trigger] cl[j]) by {
        let p = ps.filter(differs_at(v, t))[j];
        assert(ps.contains(p));
        let w = choose|w: int| 0 <= w < ps.len() && ps[w] == p;
        assert(0 <= p < n);
        assert(cl[j] == v.update(p, t));
        assert forall|i: int| 0 <= i < cl[j].len() implies cs.contains(#[trigger] cl[j][i]) by {
            if i != p {
                assert(cl[j][i] == v[i]);
            }
        }
    }
    if n > min {
        assert(max > min);
        assert forall|j: int| 0 <= j < hp.len() implies fits_set(cs, min, max, #[trigger] hp[j]) by {
            let l = hv.filter(keep)[j];
            assert(hv.contains(l));
            let w = choose|w: int| 0 <= w < hv.len() && hv[w] == l;
            assert(l < n);
            assert(keep(l));
            assert(hp[j] == v.take(l as int));
            assert forall|i: int| 0 <= i < hp[j].len() implies cs.contains(#[trigger] hp[j][i]) by {
                assert(hp[j][i] == v[i]);
            }
        }
        assert forall|j: int| 0 <= j < rms.len() implies fits_set(cs, min, max, #[trigger] rms[j]) by {
            assert(rms[j] == v.remove(j));
            assert forall|i: int| 0 <= i < rms[j].len() implies cs.contains(#[trigger] rms[j][i]) by {
                if i < j {
                    assert(rms[j][i] == v[i]);
                } else {
                    assert(rms[j][i] == v[i + 1]);
                }
            }
        }
        assert forall|j: int| 0 <= j < z.len() implies fits_set(cs, min, max, #[trigger] z[j]) by {}
        let shorter = z + hp + rms;
        assert(ex == shorter + cl);
        assert forall|k: int| 0 <= k < ex.len() implies fits_set(cs, min, max, #[trigger] ex[k]) by {
            if k < z.len() {
                assert(ex[k] == z[k]);
            } else if k < z.len() + hp.len() {
                assert(ex[k] == hp[k - z.len()]);
            } else if k < shorter.len() {
                assert(ex[k] == rms[k - z.len() - hp.len()]);
            } else {
                assert(ex[k] == cl[k - shorter.len()]);
            }
        }
    } else {
        assert(ex =~= cl);
    }
    assert forall|k: int| 0 <= k < r.len() implies st.produces(#[trigger] r[k]) by {
        assert(r[k]@ == ex[k]);
        assert(fits_set(cs, min, max, ex[k]));
    }
}

} // verus!
