//! Generator combinators ("strategies").
//!
//! [`Arbitrary`] gives one canonical generator per type; tests often need
//! ad-hoc ones instead ("an `i32` in `0..100`", "a non-empty `Vec`", "one of
//! these three"). A [`Strategy`] generates values of its [`Strategy::Value`]
//! type and proposes smaller candidates for a failing one; the combinators
//! here build strategies out of strategies.
//!
//! Each strategy describes the values it can generate with
//! [`Strategy::produces`], and every generated value satisfies it.
use vstd::prelude::*;
use crate::arbitrary::Arbitrary;
use crate::rng::{Rng, Stream, XorShift64, outputs};
use crate::text::{char_from_u32, is_scalar_value, decimal, push_decimal, string_push_str};
use crate::shrink::{halvings, lemma_halvings_bounds};
use crate::arbitrary::{chars_from_codes, clones_of, clones_except};
pub use crate::strategy_str as str;
pub use crate::strategy_domain as domain;

verus! {

/// A composable generator of [`Strategy::Value`]s that also knows how to
/// shrink them.
pub trait Strategy {
    /// The type of the generated values.
    type Value;

    /// The strategy is usable: its bounds are consistent and the functions it
    /// holds accept every value they can be given.
    spec fn wf(&self) -> bool;

    /// `v` is a value this strategy can generate.
    spec fn produces(&self, v: Self::Value) -> bool;

    /// Generation never gives up: no filter inside this strategy can reject
    /// every candidate it draws.
    spec fn always_some(&self) -> bool;

    /// `r` can be what [`Strategy::new_value`] returns with size `size` when
    /// it starts on the words `before` and leaves the generator at `after`.
    /// Strategies that state nothing more keep this default.
    open spec fn generates(&self, before: Stream, after: Stream, size: usize, r: Result<Self::Value, String>) -> bool {
        true
    }

    /// `m` can be the error [`Strategy::new_value`] gives. Strategies whose
    /// errors are not described keep this default.
    open spec fn fails_with(&self, m: Seq<char>) -> bool {
        true
    }

    /// Generates a value. An error, with its message, only when a filter
    /// rejected every candidate it drew.
    fn new_value(&self, rng: &mut XorShift64, size: usize) -> (r: Result<Self::Value, String>)
        requires
            self.wf(),
        ensures
            r matches Ok(v) ==> self.produces(v),
            self.always_some() ==> r is Ok,
            r matches Err(m) ==> self.fails_with(m@),
            self.generates(outputs(*old(rng)), outputs(*final(rng)), size, r),
    ;

    /// `r` is the candidate list that [`Strategy::shrink_value`] returns for
    /// `v`.
    spec fn shrinks_to(&self, v: Self::Value, r: Seq<Self::Value>) -> bool;

    /// Candidates smaller than `value`; an empty list means no known shrink.
    fn shrink_value(&self, value: &Self::Value) -> (r: Vec<Self::Value>)
        requires
            self.wf(),
        ensures
            self.shrinks_to(*value, r@),
    ;
}

/// Delegates to the type's [`Arbitrary`] implementation.
pub struct AnyOf<T> {
    marker: core::marker::PhantomData<T>,
}

/// The strategy of `T`'s [`Arbitrary`] implementation.
pub fn any<T: Arbitrary>() -> (r: AnyOf<T>)
    ensures
        r.wf(),
{
    AnyOf { marker: core::marker::PhantomData }
}

impl<T: Arbitrary> Strategy for AnyOf<T> {
    type Value = T;

    open spec fn always_some(&self) -> bool {
        true
    }

    open spec fn wf(&self) -> bool {
        true
    }

    open spec fn produces(&self, v: T) -> bool {
        true
    }

    open spec fn shrinks_to(&self, v: T, r: Seq<T>) -> bool {
        v.shrinks_to(r)
    }

    open spec fn generates(&self, before: Stream, after: Stream, size: usize, r: Result<T, String>) -> bool {
        r matches Ok(v) && T::arbitrary_from(before, after, size, v)
    }

    /// The value `T::arbitrary` generates.
    fn new_value(&self, rng: &mut XorShift64, size: usize) -> (r: Result<T, String>)
        ensures
            r matches Ok(v) && T::arbitrary_from(outputs(*old(rng)), outputs(*final(rng)), size, v),
    {
        Ok(T::arbitrary(rng, size))
    }

    fn shrink_value(&self, value: &T) -> (r: Vec<T>) {
        value.shrink()
    }
}

/// Always generates a clone of one value.
pub struct Just<T> {
    value: T,
}

impl<T> Just<T> {
    /// The value this strategy hands out.
    pub closed spec fn spec_value(&self) -> T {
        self.value
    }
}

/// A strategy that always returns `v`.
pub fn just<T: Clone + core::fmt::Debug>(v: T) -> (r: Just<T>)
    ensures
        r.spec_value() == v,
        r.wf(),
{
    Just { value: v }
}

impl<T: Clone + core::fmt::Debug> Strategy for Just<T> {
    type Value = T;

    open spec fn always_some(&self) -> bool {
        true
    }

    open spec fn wf(&self) -> bool {
        true
    }

    open spec fn produces(&self, v: T) -> bool {
        cloned(self.spec_value(), v)
    }

    open spec fn shrinks_to(&self, v: T, r: Seq<T>) -> bool {
        r.len() == 0
    }

    fn new_value(&self, rng: &mut XorShift64, size: usize) -> (r: Result<T, String>)
        ensures
            r is Ok,
            *final(rng) == *old(rng),
    {
        Ok(self.value.clone())
    }

    fn shrink_value(&self, value: &T) -> (r: Vec<T>) {
        Vec::new()
    }
}

/// Rounds `d / 2` toward zero, as integer division does.
pub open spec fn half_toward_zero(d: int) -> int {
    if d >= 0 {
        d / 2
    } else {
        -((-d) / 2)
    }
}

/// `v - d/2, v - d/4, …` (halving toward zero) while the halved distance is
/// non-zero: the candidates that approach `v` from the shrink target
/// `v - d`.
pub open spec fn approach(v: int, d: int) -> Seq<int>
    decreases (if d >= 0 { d } else { -d }),
{
    if half_toward_zero(d) == 0 {
        seq![]
    } else {
        seq![v - half_toward_zero(d)] + approach(v, half_toward_zero(d))
    }
}

/// The point an integer range shrinks toward: `0` when the range holds it,
/// otherwise `lo`.
pub open spec fn range_target(lo: int, hi: int) -> int {
    if lo <= 0 && 0 < hi {
        0
    } else {
        lo
    }
}

/// Membership in `[lo, hi)`.
pub open spec fn in_range(lo: int, hi: int) -> spec_fn(int) -> bool {
    |c: int| lo <= c < hi
}

/// The shrink candidates of `v` in `[lo, hi)`: the target first, then the
/// values approaching `v` from it that lie in the range.
pub open spec fn range_shrinks(lo: int, hi: int, v: int) -> Seq<int> {
    let t = range_target(lo, hi);
    if v == t {
        seq![]
    } else {
        seq![t] + approach(v, v - t).filter(in_range(lo, hi))
    }
}

/// Every element of `approach(v, d)` lies strictly between `v - d` and `v`
/// (on `d`'s side) and differs from `v`.
pub proof fn lemma_approach_bounds(v: int, d: int)
    ensures
        forall|i: int|
            0 <= i < approach(v, d).len() ==> {
                let c = #[trigger] approach(v, d)[i];
                &&& c != v
                &&& (d > 0 ==> v - d < c < v)
                &&& (d < 0 ==> v < c < v - d)
            },
    decreases (if d >= 0 { d } else { -d }),
{
    let h = half_toward_zero(d);
    if h != 0 {
        lemma_approach_bounds(v, h);
        let rest = approach(v, h);
        assert forall|i: int| 0 <= i < approach(v, d).len() implies {
            let c = #[trigger] approach(v, d)[i];
            &&& c != v
            &&& (d > 0 ==> v - d < c < v)
            &&& (d < 0 ==> v < c < v - d)
        } by {
            if i > 0 {
                assert(approach(v, d)[i] == rest[i - 1]);
            }
        }
    }
}

/// Builds the candidate list of [`range_shrinks`] over `i128`.
fn shrink_in_range(lo: i128, hi: i128, v: i128) -> (r: Vec<i128>)
    requires
        -0x1_0000_0000_0000_0000 <= lo <= 0x1_0000_0000_0000_0000,
        -0x1_0000_0000_0000_0000 <= hi <= 0x1_0000_0000_0000_0000,
        -0x1_0000_0000_0000_0000 <= v <= 0x1_0000_0000_0000_0000,
    ensures
        r@.len() == range_shrinks(lo as int, hi as int, v as int).len(),
        forall|i: int|
            0 <= i < r@.len() ==> #[trigger] r@[i] as int == range_shrinks(lo as int, hi as int, v as int)[i],
{
    let target: i128 = if lo <= 0 && 0 < hi {
        0
    } else {
        lo
    };
    let mut out: Vec<i128> = Vec::new();
    if v == target {
        return out;
    }
    out.push(target);
    let mut delta: i128 = v - target;
    let ghost full = approach(v as int, (v - target) as int);
    let ghost pred = in_range(lo as int, hi as int);
    let ghost mut taken: int = 0;
    while delta / 2 != 0
        invariant
            -0x2_0000_0000_0000_0000 <= delta <= 0x2_0000_0000_0000_0000,
            -0x1_0000_0000_0000_0000 <= v <= 0x1_0000_0000_0000_0000,
            pred == in_range(lo as int, hi as int),
            0 <= taken <= full.len(),
            approach(v as int, delta as int) == full.skip(taken),
            out@.len() == 1 + full.take(taken).filter(pred).len(),
            out@[0] == target,
            forall|i: int| 0 <= i < out@.len() - 1 ==> #[trigger] out@[i + 1] as int == full.take(taken).filter(pred)[i],
        decreases (if delta >= 0 { delta as int } else { -delta }),
    {
        let ghost old_delta = delta;
        delta = delta / 2;
        assert(delta as int == half_toward_zero(old_delta as int));
        let cand: i128 = v - delta;
        proof {
            let a = approach(v as int, old_delta as int);
            assert(a == seq![cand as int] + approach(v as int, delta as int));
            assert(a.len() > 0);
            assert(full.skip(taken)[0] == a[0]);
            assert(full.take(taken + 1) == full.take(taken).push(cand as int));
            full.take(taken).lemma_filter_push(cand as int, pred);
            assert(full.skip(taken + 1) == a.skip(1));
            taken = taken + 1;
        }
        if lo <= cand && cand < hi {
            out.push(cand);
        }
    }
    proof {
        assert(full.skip(taken).len() == 0);
        assert(full.take(taken) == full);
        let rs = range_shrinks(lo as int, hi as int, v as int);
        assert(rs == seq![target as int] + full.filter(pred));
        assert forall|i: int| 0 <= i < out@.len() implies #[trigger] out@[i] as int == rs[i] by {
            if i > 0 {
                assert(out@[(i - 1) + 1] as int == full.filter(pred)[i - 1]);
            }
        }
    }
    out
}

/// Shrinking inside a non-empty range `[lo, hi)` never leaves the range: the
/// first candidate is the target (`0` when the range holds it, else `lo`),
/// and no candidate equals the value being shrunk. A value equal to the
/// target has no candidates.
pub proof fn law_range_shrinks_stay_in_range(lo: int, hi: int, v: int)
    requires
        lo < hi,
    ensures
        forall|i: int|
            0 <= i < range_shrinks(lo, hi, v).len() ==> {
                let c = #[trigger] range_shrinks(lo, hi, v)[i];
                &&& lo <= c < hi
                &&& c != v
            },
        v != range_target(lo, hi) ==> range_shrinks(lo, hi, v).len() >= 1 && range_shrinks(lo, hi, v)[0] == range_target(lo, hi),
        v == range_target(lo, hi) ==> range_shrinks(lo, hi, v).len() == 0,
{
    broadcast use vstd::seq_lib::group_filter_ensures;
    let t = range_target(lo, hi);
    if v != t {
        let full = approach(v, v - t);
        lemma_approach_bounds(v, v - t);
        let f = full.filter(in_range(lo, hi));
        let rs = range_shrinks(lo, hi, v);
        assert(rs == seq![t] + f);
        assert forall|i: int| 0 <= i < rs.len() implies {
            let c = #[trigger] rs[i];
            &&& lo <= c < hi
            &&& c != v
        } by {
            if i > 0 {
                assert(rs[i] == f[i - 1]);
                assert(in_range(lo, hi)(f[i - 1]));
                assert(f.contains(f[i - 1]));
                full.lemma_filter_contains_rev(in_range(lo, hi), f[i - 1]);
                let k = choose|k: int| 0 <= k < full.len() && full[k] == f[i - 1];
                assert(full[k] != v);
            }
        }
    }
}

/// The candidates of [`range_shrinks`] all lie in `[lo, hi)`, except the
/// target, which is `lo` or lies in the range.
proof fn lemma_range_shrinks_fit(lo: int, hi: int, v: int)
    ensures
        forall|i: int|
            0 <= i < range_shrinks(lo, hi, v).len() ==> {
                let c = #[trigger] range_shrinks(lo, hi, v)[i];
                (lo <= c < hi) || c == lo
            },
{
    broadcast use vstd::seq_lib::group_filter_ensures;
    let t = range_target(lo, hi);
    if v != t {
        let f = approach(v, v - t).filter(in_range(lo, hi));
        let rs = range_shrinks(lo, hi, v);
        assert(rs == seq![t] + f);
        assert forall|i: int| 0 <= i < rs.len() implies {
            let c = #[trigger] rs[i];
            (lo <= c < hi) || c == lo
        } by {
            if i > 0 {
                assert(rs[i] == f[i - 1]);
                assert(in_range(lo, hi)(f[i - 1]));
            }
        }
    }
}

/// Generates integers in `[lo, hi)`, shrinking toward `0` when the range
/// holds it and toward `lo` otherwise.
pub struct IntRange<T> {
    lo: T,
    hi: T,
}

impl<T> IntRange<T> {
    /// The inclusive lower bound.
    pub closed spec fn spec_lo(&self) -> T {
        self.lo
    }

    /// The exclusive upper bound.
    pub closed spec fn spec_hi(&self) -> T {
        self.hi
    }
}

/// The strategy of the integers in `r`.
pub fn int_range<T>(r: core::ops::Range<T>) -> (s: IntRange<T>)
    ensures
        s.spec_lo() == r.start,
        s.spec_hi() == r.end,
{
    IntRange { lo: r.start, hi: r.end }
}

impl Strategy for IntRange<i8> {
    type Value = i8;

    open spec fn always_some(&self) -> bool {
        true
    }

    open spec fn wf(&self) -> bool {
        self.spec_lo() < self.spec_hi()
    }

    open spec fn produces(&self, v: i8) -> bool {
        self.spec_lo() <= v < self.spec_hi()
    }

    open spec fn shrinks_to(&self, v: i8, r: Seq<i8>) -> bool {
        &&& r.len() == range_shrinks(self.spec_lo() as int, self.spec_hi() as int, v as int).len()
        &&& forall|i: int|
            0 <= i < r.len() ==> #[trigger] r[i] as int == range_shrinks(
                self.spec_lo() as int,
                self.spec_hi() as int,
                v as int,
            )[i]
    }

    /// `lo` plus the next word reduced modulo the span.
    fn new_value(&self, rng: &mut XorShift64, size: usize) -> (r: Result<i8, String>)
        ensures
            r matches Ok(v) && v as int == self.spec_lo() as int + old(rng).nth_output(0) as int % (self.spec_hi() - self.spec_lo()),
            forall|k: nat| #[trigger] final(rng).nth_output(k) == old(rng).nth_output(k + 1),
    {
        let v = rng.gen_range_i64(self.lo as i64, self.hi as i64);
        Ok(v as i8)
    }

    /// The target first, then the in-range values approaching `value`.
    fn shrink_value(&self, value: &i8) -> (r: Vec<i8>) {
        let c = shrink_in_range(self.lo as i128, self.hi as i128, *value as i128);
        let ghost rs = range_shrinks(self.lo as int, self.hi as int, *value as int);
        proof {
            lemma_range_shrinks_fit(self.lo as int, self.hi as int, *value as int);
        }
        let mut out: Vec<i8> = Vec::new();
        let mut i: usize = 0;
        while i < c.len()
            invariant
                i <= c@.len(),
                c@.len() == rs.len(),
                forall|j: int| 0 <= j < c@.len() ==> #[trigger] c@[j] as int == rs[j],
                forall|j: int| 0 <= j < rs.len() ==> (self.lo <= #[trigger] rs[j] < self.hi) || rs[j] == self.lo,
                out@.len() == i,
                forall|j: int| 0 <= j < i ==> #[trigger] out@[j] as int == rs[j],
            decreases c@.len() - i,
        {
            proof {
                assert(c@[i as int] as int == rs[i as int]);
            }
            out.push(c[i] as i8);
            i = i + 1;
        }
        out
    }
}

impl Strategy for IntRange<i16> {
    type Value = i16;

    open spec fn always_some(&self) -> bool {
        true
    }

    open spec fn wf(&self) -> bool {
        self.spec_lo() < self.spec_hi()
    }

    open spec fn produces(&self, v: i16) -> bool {
        self.spec_lo() <= v < self.spec_hi()
    }

    open spec fn shrinks_to(&self, v: i16, r: Seq<i16>) -> bool {
        &&& r.len() == range_shrinks(self.spec_lo() as int, self.spec_hi() as int, v as int).len()
        &&& forall|i: int|
            0 <= i < r.len() ==> #[trigger] r[i] as int == range_shrinks(
                self.spec_lo() as int,
                self.spec_hi() as int,
                v as int,
            )[i]
    }

    /// `lo` plus the next word reduced modulo the span.
    fn new_value(&self, rng: &mut XorShift64, size: usize) -> (r: Result<i16, String>)
        ensures
            r matches Ok(v) && v as int == self.spec_lo() as int + old(rng).nth_output(0) as int % (self.spec_hi() - self.spec_lo()),
            forall|k: nat| #[trigger] final(rng).nth_output(k) == old(rng).nth_output(k + 1),
    {
        let v = rng.gen_range_i64(self.lo as i64, self.hi as i64);
        Ok(v as i16)
    }

    /// The target first, then the in-range values approaching `value`.
    fn shrink_value(&self, value: &i16) -> (r: Vec<i16>) {
        let c = shrink_in_range(self.lo as i128, self.hi as i128, *value as i128);
        let ghost rs = range_shrinks(self.lo as int, self.hi as int, *value as int);
        proof {
            lemma_range_shrinks_fit(self.lo as int, self.hi as int, *value as int);
        }
        let mut out: Vec<i16> = Vec::new();
        let mut i: usize = 0;
        while i < c.len()
            invariant
                i <= c@.len(),
                c@.len() == rs.len(),
                forall|j: int| 0 <= j < c@.len() ==> #[trigger] c@[j] as int == rs[j],
                forall|j: int| 0 <= j < rs.len() ==> (self.lo <= #[trigger] rs[j] < self.hi) || rs[j] == self.lo,
                out@.len() == i,
                forall|j: int| 0 <= j < i ==> #[trigger] out@[j] as int == rs[j],
            decreases c@.len() - i,
        {
            proof {
                assert(c@[i as int] as int == rs[i as int]);
            }
            out.push(c[i] as i16);
            i = i + 1;
        }
        out
    }
}

impl Strategy for IntRange<i32> {
    type Value = i32;

    open spec fn always_some(&self) -> bool {
        true
    }

    open spec fn wf(&self) -> bool {
        self.spec_lo() < self.spec_hi()
    }

    open spec fn produces(&self, v: i32) -> bool {
        self.spec_lo() <= v < self.spec_hi()
    }

    open spec fn shrinks_to(&self, v: i32, r: Seq<i32>) -> bool {
        &&& r.len() == range_shrinks(self.spec_lo() as int, self.spec_hi() as int, v as int).len()
        &&& forall|i: int|
            0 <= i < r.len() ==> #[trigger] r[i] as int == range_shrinks(
                self.spec_lo() as int,
                self.spec_hi() as int,
                v as int,
            )[i]
    }

    /// `lo` plus the next word reduced modulo the span.
    fn new_value(&self, rng: &mut XorShift64, size: usize) -> (r: Result<i32, String>)
        ensures
            r matches Ok(v) && v as int == self.spec_lo() as int + old(rng).nth_output(0) as int % (self.spec_hi() - self.spec_lo()),
            forall|k: nat| #[trigger] final(rng).nth_output(k) == old(rng).nth_output(k + 1),
    {
        let v = rng.gen_range_i64(self.lo as i64, self.hi as i64);
        Ok(v as i32)
    }

    /// The target first, then the in-range values approaching `value`.
    fn shrink_value(&self, value: &i32) -> (r: Vec<i32>) {
        let c = shrink_in_range(self.lo as i128, self.hi as i128, *value as i128);
        let ghost rs = range_shrinks(self.lo as int, self.hi as int, *value as int);
        proof {
            lemma_range_shrinks_fit(self.lo as int, self.hi as int, *value as int);
        }
        let mut out: Vec<i32> = Vec::new();
        let mut i: usize = 0;
        while i < c.len()
            invariant
                i <= c@.len(),
                c@.len() == rs.len(),
                forall|j: int| 0 <= j < c@.len() ==> #[trigger] c@[j] as int == rs[j],
                forall|j: int| 0 <= j < rs.len() ==> (self.lo <= #[trigger] rs[j] < self.hi) || rs[j] == self.lo,
                out@.len() == i,
                forall|j: int| 0 <= j < i ==> #[trigger] out@[j] as int == rs[j],
            decreases c@.len() - i,
        {
            proof {
                assert(c@[i as int] as int == rs[i as int]);
            }
            out.push(c[i] as i32);
            i = i + 1;
        }
        out
    }
}

impl Strategy for IntRange<i64> {
    type Value = i64;

    open spec fn always_some(&self) -> bool {
        true
    }

    open spec fn wf(&self) -> bool {
        self.spec_lo() < self.spec_hi()
    }

    open spec fn produces(&self, v: i64) -> bool {
        self.spec_lo() <= v < self.spec_hi()
    }

    open spec fn shrinks_to(&self, v: i64, r: Seq<i64>) -> bool {
        &&& r.len() == range_shrinks(self.spec_lo() as int, self.spec_hi() as int, v as int).len()
        &&& forall|i: int|
            0 <= i < r.len() ==> #[trigger] r[i] as int == range_shrinks(
                self.spec_lo() as int,
                self.spec_hi() as int,
                v as int,
            )[i]
    }

    /// `lo` plus the next word reduced modulo the span.
    fn new_value(&self, rng: &mut XorShift64, size: usize) -> (r: Result<i64, String>)
        ensures
            r matches Ok(v) && v as int == self.spec_lo() as int + old(rng).nth_output(0) as int % (self.spec_hi() - self.spec_lo()),
            forall|k: nat| #[trigger] final(rng).nth_output(k) == old(rng).nth_output(k + 1),
    {
        let v = rng.gen_range_i64(self.lo as i64, self.hi as i64);
        Ok(v as i64)
    }

    /// The target first, then the in-range values approaching `value`.
    fn shrink_value(&self, value: &i64) -> (r: Vec<i64>) {
        let c = shrink_in_range(self.lo as i128, self.hi as i128, *value as i128);
        let ghost rs = range_shrinks(self.lo as int, self.hi as int, *value as int);
        proof {
            lemma_range_shrinks_fit(self.lo as int, self.hi as int, *value as int);
        }
        let mut out: Vec<i64> = Vec::new();
        let mut i: usize = 0;
        while i < c.len()
            invariant
                i <= c@.len(),
                c@.len() == rs.len(),
                forall|j: int| 0 <= j < c@.len() ==> #[trigger] c@[j] as int == rs[j],
                forall|j: int| 0 <= j < rs.len() ==> (self.lo <= #[trigger] rs[j] < self.hi) || rs[j] == self.lo,
                out@.len() == i,
                forall|j: int| 0 <= j < i ==> #[trigger] out@[j] as int == rs[j],
            decreases c@.len() - i,
        {
            proof {
                assert(c@[i as int] as int == rs[i as int]);
            }
            out.push(c[i] as i64);
            i = i + 1;
        }
        out
    }
}

impl Strategy for IntRange<isize> {
    type Value = isize;

    open spec fn always_some(&self) -> bool {
        true
    }

    open spec fn wf(&self) -> bool {
        self.spec_lo() < self.spec_hi()
    }

    open spec fn produces(&self, v: isize) -> bool {
        self.spec_lo() <= v < self.spec_hi()
    }

    open spec fn shrinks_to(&self, v: isize, r: Seq<isize>) -> bool {
        &&& r.len() == range_shrinks(self.spec_lo() as int, self.spec_hi() as int, v as int).len()
        &&& forall|i: int|
            0 <= i < r.len() ==> #[trigger] r[i] as int == range_shrinks(
                self.spec_lo() as int,
                self.spec_hi() as int,
                v as int,
            )[i]
    }

    /// `lo` plus the next word reduced modulo the span.
    fn new_value(&self, rng: &mut XorShift64, size: usize) -> (r: Result<isize, String>)
        ensures
            r matches Ok(v) && v as int == self.spec_lo() as int + old(rng).nth_output(0) as int % (self.spec_hi() - self.spec_lo()),
            forall|k: nat| #[trigger] final(rng).nth_output(k) == old(rng).nth_output(k + 1),
    {
        let v = rng.gen_range_i64(self.lo as i64, self.hi as i64);
        Ok(v as isize)
    }

    /// The target first, then the in-range values approaching `value`.
    fn shrink_value(&self, value: &isize) -> (r: Vec<isize>) {
        let c = shrink_in_range(self.lo as i128, self.hi as i128, *value as i128);
        let ghost rs = range_shrinks(self.lo as int, self.hi as int, *value as int);
        proof {
            lemma_range_shrinks_fit(self.lo as int, self.hi as int, *value as int);
        }
        let mut out: Vec<isize> = Vec::new();
        let mut i: usize = 0;
        while i < c.len()
            invariant
                i <= c@.len(),
                c@.len() == rs.len(),
                forall|j: int| 0 <= j < c@.len() ==> #[trigger] c@[j] as int == rs[j],
                forall|j: int| 0 <= j < rs.len() ==> (self.lo <= #[trigger] rs[j] < self.hi) || rs[j] == self.lo,
                out@.len() == i,
                forall|j: int| 0 <= j < i ==> #[trigger] out@[j] as int == rs[j],
            decreases c@.len() - i,
        {
            proof {
                assert(c@[i as int] as int == rs[i as int]);
            }
            out.push(c[i] as isize);
            i = i + 1;
        }
        out
    }
}

impl Strategy for IntRange<u8> {
    type Value = u8;

    open spec fn always_some(&self) -> bool {
        true
    }

    open spec fn wf(&self) -> bool {
        self.spec_lo() < self.spec_hi()
    }

    open spec fn produces(&self, v: u8) -> bool {
        self.spec_lo() <= v < self.spec_hi()
    }

    open spec fn shrinks_to(&self, v: u8, r: Seq<u8>) -> bool {
        &&& r.len() == range_shrinks(self.spec_lo() as int, self.spec_hi() as int, v as int).len()
        &&& forall|i: int|
            0 <= i < r.len() ==> #[trigger] r[i] as int == range_shrinks(
                self.spec_lo() as int,
                self.spec_hi() as int,
                v as int,
            )[i]
    }

    /// `lo` plus the next word reduced modulo the span.
    fn new_value(&self, rng: &mut XorShift64, size: usize) -> (r: Result<u8, String>)
        ensures
            r matches Ok(v) && v as int == self.spec_lo() as int + old(rng).nth_output(0) as int % (self.spec_hi() - self.spec_lo()),
            forall|k: nat| #[trigger] final(rng).nth_output(k) == old(rng).nth_output(k + 1),
    {
        let v = rng.gen_range_u64(self.lo as u64, self.hi as u64);
        Ok(v as u8)
    }

    /// The target first, then the in-range values approaching `value`.
    fn shrink_value(&self, value: &u8) -> (r: Vec<u8>) {
        let c = shrink_in_range(self.lo as i128, self.hi as i128, *value as i128);
        let ghost rs = range_shrinks(self.lo as int, self.hi as int, *value as int);
        proof {
            lemma_range_shrinks_fit(self.lo as int, self.hi as int, *value as int);
        }
        let mut out: Vec<u8> = Vec::new();
        let mut i: usize = 0;
        while i < c.len()
            invariant
                i <= c@.len(),
                c@.len() == rs.len(),
                forall|j: int| 0 <= j < c@.len() ==> #[trigger] c@[j] as int == rs[j],
                forall|j: int| 0 <= j < rs.len() ==> (self.lo <= #[trigger] rs[j] < self.hi) || rs[j] == self.lo,
                out@.len() == i,
                forall|j: int| 0 <= j < i ==> #[trigger] out@[j] as int == rs[j],
            decreases c@.len() - i,
        {
            proof {
                assert(c@[i as int] as int == rs[i as int]);
            }
            out.push(c[i] as u8);
            i = i + 1;
        }
        out
    }
}

impl Strategy for IntRange<u16> {
    type Value = u16;

    open spec fn always_some(&self) -> bool {
        true
    }

    open spec fn wf(&self) -> bool {
        self.spec_lo() < self.spec_hi()
    }

    open spec fn produces(&self, v: u16) -> bool {
        self.spec_lo() <= v < self.spec_hi()
    }

    open spec fn shrinks_to(&self, v: u16, r: Seq<u16>) -> bool {
        &&& r.len() == range_shrinks(self.spec_lo() as int, self.spec_hi() as int, v as int).len()
        &&& forall|i: int|
            0 <= i < r.len() ==> #[trigger] r[i] as int == range_shrinks(
                self.spec_lo() as int,
                self.spec_hi() as int,
                v as int,
            )[i]
    }

    /// `lo` plus the next word reduced modulo the span.
    fn new_value(&self, rng: &mut XorShift64, size: usize) -> (r: Result<u16, String>)
        ensures
            r matches Ok(v) && v as int == self.spec_lo() as int + old(rng).nth_output(0) as int % (self.spec_hi() - self.spec_lo()),
            forall|k: nat| #[trigger] final(rng).nth_output(k) == old(rng).nth_output(k + 1),
    {
        let v = rng.gen_range_u64(self.lo as u64, self.hi as u64);
        Ok(v as u16)
    }

    /// The target first, then the in-range values approaching `value`.
    fn shrink_value(&self, value: &u16) -> (r: Vec<u16>) {
        let c = shrink_in_range(self.lo as i128, self.hi as i128, *value as i128);
        let ghost rs = range_shrinks(self.lo as int, self.hi as int, *value as int);
        proof {
            lemma_range_shrinks_fit(self.lo as int, self.hi as int, *value as int);
        }
        let mut out: Vec<u16> = Vec::new();
        let mut i: usize = 0;
        while i < c.len()
            invariant
                i <= c@.len(),
                c@.len() == rs.len(),
                forall|j: int| 0 <= j < c@.len() ==> #[trigger] c@[j] as int == rs[j],
                forall|j: int| 0 <= j < rs.len() ==> (self.lo <= #[trigger] rs[j] < self.hi) || rs[j] == self.lo,
                out@.len() == i,
                forall|j: int| 0 <= j < i ==> #[trigger] out@[j] as int == rs[j],
            decreases c@.len() - i,
        {
            proof {
                assert(c@[i as int] as int == rs[i as int]);
            }
            out.push(c[i] as u16);
            i = i + 1;
        }
        out
    }
}

impl Strategy for IntRange<u32> {
    type Value = u32;

    open spec fn always_some(&self) -> bool {
        true
    }

    open spec fn wf(&self) -> bool {
        self.spec_lo() < self.spec_hi()
    }

    open spec fn produces(&self, v: u32) -> bool {
        self.spec_lo() <= v < self.spec_hi()
    }

    open spec fn shrinks_to(&self, v: u32, r: Seq<u32>) -> bool {
        &&& r.len() == range_shrinks(self.spec_lo() as int, self.spec_hi() as int, v as int).len()
        &&& forall|i: int|
            0 <= i < r.len() ==> #[trigger] r[i] as int == range_shrinks(
                self.spec_lo() as int,
                self.spec_hi() as int,
                v as int,
            )[i]
    }

    /// `lo` plus the next word reduced modulo the span.
    fn new_value(&self, rng: &mut XorShift64, size: usize) -> (r: Result<u32, String>)
        ensures
            r matches Ok(v) && v as int == self.spec_lo() as int + old(rng).nth_output(0) as int % (self.spec_hi() - self.spec_lo()),
            forall|k: nat| #[trigger] final(rng).nth_output(k) == old(rng).nth_output(k + 1),
    {
        let v = rng.gen_range_u64(self.lo as u64, self.hi as u64);
        Ok(v as u32)
    }

    /// The target first, then the in-range values approaching `value`.
    fn shrink_value(&self, value: &u32) -> (r: Vec<u32>) {
        let c = shrink_in_range(self.lo as i128, self.hi as i128, *value as i128);
        let ghost rs = range_shrinks(self.lo as int, self.hi as int, *value as int);
        proof {
            lemma_range_shrinks_fit(self.lo as int, self.hi as int, *value as int);
        }
        let mut out: Vec<u32> = Vec::new();
        let mut i: usize = 0;
        while i < c.len()
            invariant
                i <= c@.len(),
                c@.len() == rs.len(),
                forall|j: int| 0 <= j < c@.len() ==> #[trigger] c@[j] as int == rs[j],
                forall|j: int| 0 <= j < rs.len() ==> (self.lo <= #[trigger] rs[j] < self.hi) || rs[j] == self.lo,
                out@.len() == i,
                forall|j: int| 0 <= j < i ==> #[trigger] out@[j] as int == rs[j],
            decreases c@.len() - i,
        {
            proof {
                assert(c@[i as int] as int == rs[i as int]);
            }
            out.push(c[i] as u32);
            i = i + 1;
        }
        out
    }
}

impl Strategy for IntRange<u64> {
    type Value = u64;

    open spec fn always_some(&self) -> bool {
        true
    }

    open spec fn wf(&self) -> bool {
        self.spec_lo() < self.spec_hi()
    }

    open spec fn produces(&self, v: u64) -> bool {
        self.spec_lo() <= v < self.spec_hi()
    }

    open spec fn shrinks_to(&self, v: u64, r: Seq<u64>) -> bool {
        &&& r.len() == range_shrinks(self.spec_lo() as int, self.spec_hi() as int, v as int).len()
        &&& forall|i: int|
            0 <= i < r.len() ==> #[trigger] r[i] as int == range_shrinks(
                self.spec_lo() as int,
                self.spec_hi() as int,
                v as int,
            )[i]
    }

    /// `lo` plus the next word reduced modulo the span.
    fn new_value(&self, rng: &mut XorShift64, size: usize) -> (r: Result<u64, String>)
        ensures
            r matches Ok(v) && v as int == self.spec_lo() as int + old(rng).nth_output(0) as int % (self.spec_hi() - self.spec_lo()),
            forall|k: nat| #[trigger] final(rng).nth_output(k) == old(rng).nth_output(k + 1),
    {
        let v = rng.gen_range_u64(self.lo as u64, self.hi as u64);
        Ok(v as u64)
    }

    /// The target first, then the in-range values approaching `value`.
    fn shrink_value(&self, value: &u64) -> (r: Vec<u64>) {
        let c = shrink_in_range(self.lo as i128, self.hi as i128, *value as i128);
        let ghost rs = range_shrinks(self.lo as int, self.hi as int, *value as int);
        proof {
            lemma_range_shrinks_fit(self.lo as int, self.hi as int, *value as int);
        }
        let mut out: Vec<u64> = Vec::new();
        let mut i: usize = 0;
        while i < c.len()
            invariant
                i <= c@.len(),
                c@.len() == rs.len(),
                forall|j: int| 0 <= j < c@.len() ==> #[trigger] c@[j] as int == rs[j],
                forall|j: int| 0 <= j < rs.len() ==> (self.lo <= #[trigger] rs[j] < self.hi) || rs[j] == self.lo,
                out@.len() == i,
                forall|j: int| 0 <= j < i ==> #[trigger] out@[j] as int == rs[j],
            decreases c@.len() - i,
        {
            proof {
                assert(c@[i as int] as int == rs[i as int]);
            }
            out.push(c[i] as u64);
            i = i + 1;
        }
        out
    }
}

impl Strategy for IntRange<usize> {
    type Value = usize;

    open spec fn always_some(&self) -> bool {
        true
    }

    open spec fn wf(&self) -> bool {
        self.spec_lo() < self.spec_hi()
    }

    open spec fn produces(&self, v: usize) -> bool {
        self.spec_lo() <= v < self.spec_hi()
    }

    open spec fn shrinks_to(&self, v: usize, r: Seq<usize>) -> bool {
        &&& r.len() == range_shrinks(self.spec_lo() as int, self.spec_hi() as int, v as int).len()
        &&& forall|i: int|
            0 <= i < r.len() ==> #[trigger] r[i] as int == range_shrinks(
                self.spec_lo() as int,
                self.spec_hi() as int,
                v as int,
            )[i]
    }

    /// `lo` plus the next word reduced modulo the span.
    fn new_value(&self, rng: &mut XorShift64, size: usize) -> (r: Result<usize, String>)
        ensures
            r matches Ok(v) && v as int == self.spec_lo() as int + old(rng).nth_output(0) as int % (self.spec_hi() - self.spec_lo()),
            forall|k: nat| #[trigger] final(rng).nth_output(k) == old(rng).nth_output(k + 1),
    {
        let v = rng.gen_range_u64(self.lo as u64, self.hi as u64);
        Ok(v as usize)
    }

    /// The target first, then the in-range values approaching `value`.
    fn shrink_value(&self, value: &usize) -> (r: Vec<usize>) {
        let c = shrink_in_range(self.lo as i128, self.hi as i128, *value as i128);
        let ghost rs = range_shrinks(self.lo as int, self.hi as int, *value as int);
        proof {
            lemma_range_shrinks_fit(self.lo as int, self.hi as int, *value as int);
        }
        let mut out: Vec<usize> = Vec::new();
        let mut i: usize = 0;
        while i < c.len()
            invariant
                i <= c@.len(),
                c@.len() == rs.len(),
                forall|j: int| 0 <= j < c@.len() ==> #[trigger] c@[j] as int == rs[j],
                forall|j: int| 0 <= j < rs.len() ==> (self.lo <= #[trigger] rs[j] < self.hi) || rs[j] == self.lo,
                out@.len() == i,
                forall|j: int| 0 <= j < i ==> #[trigger] out@[j] as int == rs[j],
            decreases c@.len() - i,
        {
            proof {
                assert(c@[i as int] as int == rs[i as int]);
            }
            out.push(c[i] as usize);
            i = i + 1;
        }
        out
    }
}

/// Generates characters in `[lo, hi)`, skipping surrogate code points, and
/// shrinks toward `lo`.
pub struct CharRange {
    lo: char,
    hi: char,
}

impl CharRange {
    /// The inclusive lower bound.
    pub closed spec fn spec_lo(&self) -> char {
        self.lo
    }

    /// The exclusive upper bound.
    pub closed spec fn spec_hi(&self) -> char {
        self.hi
    }
}

/// The strategy of the characters in `r`.
pub fn char_range(r: core::ops::Range<char>) -> (s: CharRange)
    requires
        r.start as u32 <= r.end as u32,
    ensures
        s.spec_lo() == r.start,
        s.spec_hi() == r.end,
{
    CharRange { lo: r.start, hi: r.end }
}

/// The shrink candidates of `c` toward `lo`: `lo` first, then — for `c`
/// above `lo` — the valid characters among the codes approaching `c` by
/// halving the distance.
pub open spec fn char_range_shrinks(lo: char, c: char) -> Seq<char> {
    if c == lo {
        seq![]
    } else if (c as u32) <= (lo as u32) {
        seq![lo]
    } else {
        seq![lo] + chars_from_codes(halvings(c as u32 as nat, ((c as u32) - (lo as u32)) as nat))
    }
}

/// The code of the draw `x` in the span of a character range.
pub open spec fn char_draw(lo: char, hi: char, x: u64) -> nat {
    (lo as u32) as nat + (x as nat) % ((hi as u32) - (lo as u32)) as nat
}

impl Strategy for CharRange {
    type Value = char;

    open spec fn always_some(&self) -> bool {
        true
    }

    open spec fn wf(&self) -> bool {
        true
    }

    open spec fn produces(&self, c: char) -> bool {
        c == self.spec_lo() || ((self.spec_lo() as u32) <= (c as u32) < (self.spec_hi() as u32))
    }

    open spec fn shrinks_to(&self, c: char, r: Seq<char>) -> bool {
        r == char_range_shrinks(self.spec_lo(), c)
    }

    /// Draws codes in the range until one is a valid character, at most 32
    /// times, then falls back to `lo`; an empty range gives `lo`.
    fn new_value(&self, rng: &mut XorShift64, size: usize) -> (r: Result<char, String>)
        ensures
            r is Ok,
            (self.spec_lo() as u32) < (self.spec_hi() as u32) && is_scalar_value(
                char_draw(self.spec_lo(), self.spec_hi(), old(rng).nth_output(0)),
            ) ==> r == Ok::<char, String>(char_draw(self.spec_lo(), self.spec_hi(), old(rng).nth_output(0)) as char),
    {
        proof {
            vstd::utf8::char_is_scalar(self.lo);
            vstd::utf8::char_is_scalar(self.hi);
        }
        let lo = self.lo as u32;
        let hi = self.hi as u32;
        if hi <= lo {
            return Ok(self.lo);
        }
        let ghost start = *rng;
        let mut tries: u32 = 0;
        while tries < 32
            invariant
                lo < hi,
                hi <= 0x10FFFF,
                lo == self.lo as u32,
                hi == self.hi as u32,
                tries == 0 ==> *rng == start,
                tries > 0 ==> !is_scalar_value(char_draw(self.lo, self.hi, start.nth_output(0))),
                start == *old(rng),
            decreases 32 - tries,
        {
            let ghost first = tries == 0;
            let wide = rng.gen_range_u64(lo as u64, hi as u64);
            let code = wide as u32;
            proof {
                if first {
                    assert(code as nat == char_draw(self.lo, self.hi, start.nth_output(0)));
                }
            }
            match char_from_u32(code) {
                Some(c) => {
                    return Ok(c);
                },
                None => {},
            }
            tries = tries + 1;
        }
        Ok(self.lo)
    }

    /// `lo`, then the valid characters approaching `value` from `lo`.
    fn shrink_value(&self, value: &char) -> (r: Vec<char>) {
        let mut out: Vec<char> = Vec::new();
        if *value == self.lo {
            return out;
        }
        out.push(self.lo);
        proof {
            vstd::utf8::char_is_scalar(self.lo);
            vstd::utf8::char_is_scalar(*value);
        }
        let v = *value as u32;
        let lo = self.lo as u32;
        if v <= lo {
            return out;
        }
        let ghost full = halvings(v as nat, (v - lo) as nat);
        let ghost mut taken: int = 0;
        let mut delta: u32 = v - lo;
        while delta / 2 > 0
            invariant
                lo < v <= 0x10FFFF,
                0 < delta <= v - lo,
                0 <= taken <= full.len(),
                full == halvings(v as nat, (v - lo) as nat),
                halvings(v as nat, delta as nat) == full.skip(taken),
                out@ == seq![self.lo] + chars_from_codes(full.take(taken)),
            decreases delta,
        {
            let ghost old_delta = delta;
            delta = delta / 2;
            let cand: u32 = v - delta;
            proof {
                let h = halvings(v as nat, old_delta as nat);
                assert(h == seq![cand as nat] + halvings(v as nat, delta as nat));
                assert(full.skip(taken)[0] == h[0]);
                assert(full.take(taken + 1) == full.take(taken).push(cand as nat));
                assert(full.take(taken + 1).drop_last() == full.take(taken));
                assert(full.skip(taken + 1) == h.skip(1));
                taken = taken + 1;
            }
            match char_from_u32(cand) {
                Some(c) => {
                    out.push(c);
                },
                None => {},
            }
        }
        proof {
            assert(full.skip(taken).len() == 0);
            assert(full.take(taken) == full);
        }
        out
    }
}

proof fn lemma_chars_from_codes_bounds(codes: Seq<nat>, a: nat, b: nat)
    requires
        forall|i: int| 0 <= i < codes.len() ==> a <= #[trigger] codes[i] < b,
    ensures
        forall|i: int|
            0 <= i < chars_from_codes(codes).len() ==> a <= (#[trigger] chars_from_codes(codes)[i] as u32) < b,
    decreases codes.len(),
{
    if codes.len() > 0 {
        let d = codes.drop_last();
        assert forall|i: int| 0 <= i < d.len() implies a <= #[trigger] d[i] < b by {
            assert(d[i] == codes[i]);
        }
        lemma_chars_from_codes_bounds(d, a, b);
        let rest = chars_from_codes(d);
        if crate::text::is_scalar_value(codes.last()) {
            let x = codes.last();
            assert(a <= x < b);
            assert(chars_from_codes(codes) == rest.push(x as char));
            assert((x as char) as u32 == x);
            assert forall|i: int|
                0 <= i < chars_from_codes(codes).len() implies a <= (#[trigger] chars_from_codes(codes)[i] as u32) < b by {
                if i < rest.len() {
                    assert(chars_from_codes(codes)[i] == rest[i]);
                }
            }
        }
    }
}

/// Shrinking never leaves the range: each candidate of a character the
/// strategy produces is one it produces too.
pub proof fn law_char_range_shrinks_stay_in_range(st: CharRange, c: char, r: Seq<char>)
    requires
        st.produces(c),
        st.shrinks_to(c, r),
    ensures
        forall|k: int| 0 <= k < r.len() ==> st.produces(#[trigger] r[k]),
{
    let lo = st.spec_lo();
    if c != lo && (c as u32) > (lo as u32) {
        let n = c as u32 as nat;
        let d = ((c as u32) - (lo as u32)) as nat;
        lemma_halvings_bounds(n, d);
        let hs = halvings(n, d);
        assert forall|i: int| 0 <= i < hs.len() implies (lo as u32) as nat <= #[trigger] hs[i] < n by {}
        lemma_chars_from_codes_bounds(hs, (lo as u32) as nat, n);
        let tail = chars_from_codes(hs);
        assert(r == seq![lo] + tail);
        assert forall|k: int| 0 <= k < r.len() implies st.produces(#[trigger] r[k]) by {
            if k > 0 {
                assert(r[k] == tail[k - 1]);
            }
        }
    }
}

/// Picks one of several strategies uniformly; all generate the same type.
pub struct OneOf<S> {
    choices: Vec<S>,
}

impl<S> OneOf<S> {
    /// The strategies to pick from.
    pub closed spec fn spec_choices(&self) -> Seq<S> {
        self.choices@
    }
}

/// The strategy that picks uniformly among `choices`.
pub fn one_of<S: Strategy>(choices: Vec<S>) -> (r: OneOf<S>)
    requires
        choices@.len() > 0,
    ensures
        r.spec_choices() == choices@,
{
    OneOf { choices }
}

impl<S: Strategy> Strategy for OneOf<S> {
    /// An error of one of the choices.
    open spec fn fails_with(&self, m: Seq<char>) -> bool {
        exists|i: int| 0 <= i < self.spec_choices().len() && #[trigger] self.spec_choices()[i].fails_with(m)
    }

    type Value = S::Value;

    open spec fn always_some(&self) -> bool {
        forall|i: int| 0 <= i < self.spec_choices().len() ==> #[trigger] self.spec_choices()[i].always_some()
    }

    open spec fn wf(&self) -> bool {
        &&& self.spec_choices().len() > 0
        &&& forall|i: int| 0 <= i < self.spec_choices().len() ==> #[trigger] self.spec_choices()[i].wf()
    }

    open spec fn produces(&self, v: S::Value) -> bool {
        exists|i: int| 0 <= i < self.spec_choices().len() && #[trigger] self.spec_choices()[i].produces(v)
    }

    /// The concatenation, in order, of every choice's candidates for `v`
    /// (which choice generated `v` is not remembered).
    open spec fn shrinks_to(&self, v: S::Value, r: Seq<S::Value>) -> bool {
        exists|parts: Seq<Seq<S::Value>>|
            {
                &&& parts.len() == self.spec_choices().len()
                &&& forall|i: int| 0 <= i < parts.len() ==> #[trigger] self.spec_choices()[i].shrinks_to(v, parts[i])
                &&& r == parts.flatten()
            }
    }

    /// What the choice at the first word, modulo the number of choices,
    /// generates from the words after it with the same size.
    open spec fn generates(&self, before: Stream, after: Stream, size: usize, r: Result<S::Value, String>) -> bool {
        self.spec_choices()[before(0) as int % self.spec_choices().len() as int].generates(|k: nat| before(k + 1), after, size, r)
    }

    /// The choice at the next word modulo the number of choices generates.
    fn new_value(&self, rng: &mut XorShift64, size: usize) -> (r: Result<S::Value, String>)
        ensures
            r matches Ok(v) ==> self.spec_choices()[old(rng).nth_output(0) as int % self.spec_choices().len() as int].produces(v),
    {
        let ghost g0 = *rng;
        let idx = rng.gen_range_usize(0, self.choices.len());
        proof {
            assert(outputs(*rng) == (|k: nat| outputs(g0)(k + 1))) by {
                assert(outputs(*rng) =~= (|k: nat| outputs(g0)(k + 1)));
            }
            assert(outputs(g0)(0) == g0.nth_output(0));
        }
        self.choices[idx].new_value(rng, size)
    }

    fn shrink_value(&self, value: &S::Value) -> (r: Vec<S::Value>) {
        let mut out: Vec<S::Value> = Vec::new();
        let ghost mut parts: Seq<Seq<S::Value>> = seq![];
        let mut i: usize = 0;
        while i < self.choices.len()
            invariant
                self.wf(),
                i <= self.choices@.len(),
                parts.len() == i,
                forall|j: int| 0 <= j < i ==> #[trigger] self.spec_choices()[j].shrinks_to(*value, parts[j]),
                out@ == parts.flatten(),
            decreases self.choices@.len() - i,
        {
            let mut c = self.choices[i].shrink_value(value);
            proof {
                parts.lemma_flatten_push(c@);
                parts = parts.push(c@);
            }
            out.append(&mut c);
            i = i + 1;
        }
        proof {
            assert(self.shrinks_to(*value, out@)) by {
                assert(parts.len() == self.spec_choices().len());
            }
        }
        out
    }
}

/// Picks one of several strategies with the given integer weights.
pub struct WeightedOneOf<S> {
    choices: Vec<(u32, S)>,
    total_weight: u64,
}

/// The sum of the weights in `choices`.
pub open spec fn weight_sum<S>(choices: Seq<(u32, S)>) -> nat
    decreases choices.len(),
{
    if choices.len() == 0 {
        0
    } else {
        choices[0].0 as nat + weight_sum(choices.drop_first())
    }
}

/// The index of the choice that a pick lands on: the first whose
/// cumulative weight exceeds the pick.
pub open spec fn weighted_index<S>(choices: Seq<(u32, S)>, pick: nat) -> nat
    decreases choices.len(),
{
    if choices.len() == 0 || pick < choices[0].0 as nat {
        0
    } else {
        1 + weighted_index(choices.drop_first(), (pick - choices[0].0) as nat)
    }
}

impl<S> WeightedOneOf<S> {
    /// The weighted strategies to pick from.
    pub closed spec fn spec_choices(&self) -> Seq<(u32, S)> {
        self.choices@
    }

    /// The sum of the weights.
    pub closed spec fn spec_total(&self) -> u64 {
        self.total_weight
    }
}

/// Appending a choice adds its weight to the sum.
proof fn lemma_weight_sum_push<S>(choices: Seq<(u32, S)>, c: (u32, S))
    ensures
        weight_sum(choices.push(c)) == weight_sum(choices) + c.0 as nat,
    decreases choices.len(),
{
    if choices.len() > 0 {
        assert(choices.push(c).drop_first() == choices.drop_first().push(c));
        assert(choices.push(c)[0] == choices[0]);
        lemma_weight_sum_push(choices.drop_first(), c);
    } else {
        assert(choices.push(c).drop_first().len() == 0);
        assert(choices.push(c)[0] == c);
        assert(weight_sum(choices.push(c).drop_first()) == 0);
    }
}

/// A pick below the sum lands on a choice.
proof fn lemma_weighted_index_in<S>(choices: Seq<(u32, S)>, pick: nat)
    requires
        pick < weight_sum(choices),
    ensures
        weighted_index(choices, pick) < choices.len(),
    decreases choices.len(),
{
    if choices.len() > 0 && pick >= choices[0].0 as nat {
        lemma_weighted_index_in(choices.drop_first(), (pick - choices[0].0) as nat);
    }
}

/// A pick below the total weight lands on the choice whose band of picks
/// holds it: the weights before choice `i` sum to at most the pick, and the
/// pick is below that sum plus the weight of `i`. So each choice takes
/// exactly as many picks as its weight, and a choice of weight zero none.
pub proof fn law_weighted_pick_in_band<S>(choices: Seq<(u32, S)>, pick: nat)
    requires
        pick < weight_sum(choices),
    ensures
        weighted_index(choices, pick) < choices.len(),
        weight_sum(choices.take(weighted_index(choices, pick) as int)) <= pick,
        pick < weight_sum(choices.take(weighted_index(choices, pick) as int + 1)),
    decreases choices.len(),
{
    lemma_weighted_index_in(choices, pick);
    let i = weighted_index(choices, pick);
    let w0 = choices[0].0 as nat;
    assert(choices.take(1).drop_first().len() == 0);
    assert(weight_sum(choices.take(1)) == w0 + weight_sum(choices.take(1).drop_first()));
    if pick < w0 {
        assert(choices.take(0).len() == 0);
    } else {
        let rest = choices.drop_first();
        let p2 = (pick - w0) as nat;
        law_weighted_pick_in_band(rest, p2);
        let j = weighted_index(rest, p2);
        assert(i == j + 1);
        assert(choices.take(i as int).drop_first() == rest.take(j as int));
        assert(choices.take(i as int)[0] == choices[0]);
        assert(choices.take(i as int + 1).drop_first() == rest.take(j as int + 1));
        assert(choices.take(i as int + 1)[0] == choices[0]);
    }
}

/// The strategy that picks among `choices` in proportion to their weights.
pub fn weighted_one_of<S: Strategy>(choices: Vec<(u32, S)>) -> (r: WeightedOneOf<S>)
    requires
        choices@.len() > 0,
        0 < weight_sum(choices@) <= u64::MAX,
    ensures
        r.spec_choices() == choices@,
        r.spec_total() == weight_sum(choices@),
{
    let mut total: u64 = 0;
    let mut i: usize = 0;
    while i < choices.len()
        invariant
            i <= choices@.len(),
            total == weight_sum(choices@.take(i as int)),
            weight_sum(choices@) <= u64::MAX,
        decreases choices@.len() - i,
    {
        proof {
            assert(choices@.take(i + 1) == choices@.take(i as int).push(choices@[i as int]));
            lemma_weight_sum_push(choices@.take(i as int), choices@[i as int]);
            lemma_weight_sum_prefix_le(choices@, (i + 1) as int);
        }
        total = total + choices[i].0 as u64;
        i = i + 1;
    }
    assert(choices@.take(choices@.len() as int) == choices@);
    assert(total == weight_sum(choices@));
    WeightedOneOf { choices, total_weight: total }
}

/// A prefix weighs no more than the whole.
proof fn lemma_weight_sum_prefix_le<S>(choices: Seq<(u32, S)>, k: int)
    requires
        0 <= k <= choices.len(),
    ensures
        weight_sum(choices.take(k)) <= weight_sum(choices),
    decreases choices.len() - k,
{
    if k < choices.len() {
        lemma_weight_sum_prefix_le(choices, k + 1);
        assert(choices.take(k + 1) == choices.take(k).push(choices[k]));
        lemma_weight_sum_push(choices.take(k), choices[k]);
    } else {
        assert(choices.take(k) == choices);
    }
}

impl<S: Strategy> Strategy for WeightedOneOf<S> {
    type Value = S::Value;

    open spec fn always_some(&self) -> bool {
        forall|i: int| 0 <= i < self.spec_choices().len() ==> #[trigger] self.spec_choices()[i].1.always_some()
    }

    open spec fn wf(&self) -> bool {
        &&& self.spec_choices().len() > 0
        &&& self.spec_total() == weight_sum(self.spec_choices())
        &&& self.spec_total() > 0
        &&& forall|i: int| 0 <= i < self.spec_choices().len() ==> #[trigger] self.spec_choices()[i].1.wf()
    }

    open spec fn produces(&self, v: S::Value) -> bool {
        exists|i: int| 0 <= i < self.spec_choices().len() && #[trigger] self.spec_choices()[i].1.produces(v)
    }

    /// The concatenation, in order, of every choice's candidates for `v`.
    open spec fn shrinks_to(&self, v: S::Value, r: Seq<S::Value>) -> bool {
        exists|parts: Seq<Seq<S::Value>>|
            {
                &&& parts.len() == self.spec_choices().len()
                &&& forall|i: int| 0 <= i < parts.len() ==> #[trigger] self.spec_choices()[i].1.shrinks_to(v, parts[i])
                &&& r == parts.flatten()
            }
    }

    /// Draws a pick below the total weight; the choice whose cumulative
    /// weight first exceeds it generates.
    fn new_value(&self, rng: &mut XorShift64, size: usize) -> (r: Result<S::Value, String>)
        ensures
            r matches Ok(v) ==> self.spec_choices()[weighted_index(
                self.spec_choices(),
                (old(rng).nth_output(0) % self.spec_total()) as nat,
            ) as int].1.produces(v),
    {
        let ghost pick0 = (rng.nth_output(0) % self.total_weight) as nat;
        let mut pick = rng.gen_range_u64(0, self.total_weight);
        let mut i: usize = 0;
        assert(self.choices@.skip(0) == self.choices@);
        while i < self.choices.len()
            invariant
                self.wf(),
                i <= self.choices@.len(),
                (pick as nat) < weight_sum(self.choices@.skip(i as int)),
                weighted_index(self.choices@, pick0) == i + weighted_index(self.choices@.skip(i as int), pick as nat),
                pick0 == (old(rng).nth_output(0) % self.spec_total()) as nat,
            decreases self.choices@.len() - i,
        {
            let w = self.choices[i].0 as u64;
            let ghost rest = self.choices@.skip(i as int);
            proof {
                assert(rest[0] == self.choices@[i as int]);
                assert(rest.drop_first() == self.choices@.skip(i + 1));
            }
            if pick < w {
                assert(weighted_index(rest, pick as nat) == 0);
                return self.choices[i].1.new_value(rng, size);
            }
            proof {
                assert(weighted_index(rest, pick as nat) == 1 + weighted_index(rest.drop_first(), (pick - w) as nat));
            }
            pick = pick - w;
            i = i + 1;
        }
        Err(String::new())
    }

    fn shrink_value(&self, value: &S::Value) -> (r: Vec<S::Value>) {
        let mut out: Vec<S::Value> = Vec::new();
        let ghost mut parts: Seq<Seq<S::Value>> = seq![];
        let mut i: usize = 0;
        while i < self.choices.len()
            invariant
                self.wf(),
                i <= self.choices@.len(),
                parts.len() == i,
                forall|j: int| 0 <= j < i ==> #[trigger] self.spec_choices()[j].1.shrinks_to(*value, parts[j]),
                out@ == parts.flatten(),
            decreases self.choices@.len() - i,
        {
            let mut c = self.choices[i].1.shrink_value(value);
            proof {
                parts.lemma_flatten_push(c@);
                parts = parts.push(c@);
            }
            out.append(&mut c);
            i = i + 1;
        }
        proof {
            assert(self.shrinks_to(*value, out@)) by {
                assert(parts.len() == self.spec_choices().len());
            }
        }
        out
    }
}

/// For each position `i` of `parts`, `parts[i].len()` copies of `i`, in
/// order: the position that each element of `parts.flatten()` comes from.
pub open spec fn owners<T>(parts: Seq<Seq<T>>) -> Seq<int> {
    Seq::new(parts.len(), |i: int| Seq::new(parts[i].len(), |j: int| i)).flatten()
}

/// Appending a part appends its owners.
pub proof fn lemma_owners_push<T>(parts: Seq<Seq<T>>, x: Seq<T>)
    ensures
        owners(parts.push(x)) == owners(parts) + Seq::new(x.len(), |j: int| parts.len() as int),
{
    let f = |i: int| Seq::new(parts.push(x)[i].len(), |j: int| i);
    let g = |i: int| Seq::new(parts[i].len(), |j: int| i);
    let a = Seq::new(parts.len() + 1, f);
    let b = Seq::new(parts.len(), g);
    assert(a == b.push(Seq::new(x.len(), |j: int| parts.len() as int)));
    b.lemma_flatten_push(Seq::new(x.len(), |j: int| parts.len() as int));
}

/// The length of a vector generated under `[min, max)`: drawn in the range
/// when it is non-empty, otherwise `min`.
pub open spec fn len_in(min: usize, max: usize, n: nat) -> bool {
    if max > min {
        min <= n < max
    } else {
        n == min
    }
}

/// The shrink candidates of a vector `v` whose length must stay at least
/// `min`: when `v` is longer than `min`, the empty vector (if `min == 0`)
/// and then `v` without each element in turn; after those, copies of `v`
/// with one element replaced — element `i` by each of `parts[i]` in turn,
/// for `i` in order — where `parts[i]` are the element's own candidates.
pub open spec fn vec_shrink_layout<T: Clone>(
    min: usize,
    v: Seq<T>,
    r: Seq<Vec<T>>,
    parts: Seq<Seq<T>>,
) -> bool {
    let n = v.len();
    let e: nat = if n > min && min == 0 { 1 } else { 0 };
    let rm: nat = if n > min { n } else { 0 };
    let fixed = e + rm;
    let own = owners(parts);
    let repl = parts.flatten();
    &&& parts.len() == n
    &&& r.len() == fixed + repl.len()
    &&& e == 1 ==> r[0]@.len() == 0
    &&& forall|k: int| e <= k < fixed ==> clones_of(v.remove(k - e), #[trigger] r[k]@)
    &&& forall|k: int|
        fixed <= k < r.len() ==> {
            &&& clones_except(v, #[trigger] r[k]@, own[k - fixed])
            &&& r[k]@[own[k - fixed]] == repl[k - fixed]
        }
}

/// Generates vectors whose length lies in `[min, max)` and whose elements
/// come from an element strategy. Shrinks length first (never below `min`),
/// then the elements.
pub struct VecOf<S> {
    element: S,
    min_len: usize,
    max_len: usize,
}

impl<S> VecOf<S> {
    /// The strategy of the elements.
    pub closed spec fn spec_element(&self) -> S {
        self.element
    }

    /// The smallest length.
    pub closed spec fn spec_min(&self) -> usize {
        self.min_len
    }

    /// The exclusive bound on the length (when above the smallest).
    pub closed spec fn spec_max(&self) -> usize {
        self.max_len
    }
}

/// The strategy of vectors of `element` values with a length in
/// `len_range`.
pub fn vec_of<S: Strategy>(element: S, len_range: core::ops::Range<usize>) -> (r: VecOf<S>)
    requires
        len_range.start <= len_range.end,
    ensures
        r.spec_element() == element,
        r.spec_min() == len_range.start,
        r.spec_max() == len_range.end,
{
    VecOf { element, min_len: len_range.start, max_len: len_range.end }
}

/// The strategy of byte vectors with a length in `len_range`.
pub fn bytes(len_range: core::ops::Range<usize>) -> (r: VecOf<AnyOf<u8>>)
    requires
        len_range.start <= len_range.end,
    ensures
        r.spec_min() == len_range.start,
        r.spec_max() == len_range.end,
        r.wf(),
{
    vec_of(any::<u8>(), len_range)
}

impl<S: Strategy> Strategy for VecOf<S> where S::Value: Clone {
    /// An error of the element strategy.
    open spec fn fails_with(&self, m: Seq<char>) -> bool {
        self.spec_element().fails_with(m)
    }

    type Value = Vec<S::Value>;

    open spec fn always_some(&self) -> bool {
        self.spec_element().always_some()
    }

    open spec fn wf(&self) -> bool {
        self.spec_element().wf()
    }

    open spec fn produces(&self, v: Vec<S::Value>) -> bool {
        &&& len_in(self.spec_min(), self.spec_max(), v@.len())
        &&& forall|i: int| 0 <= i < v@.len() ==> self.spec_element().produces(#[trigger] v@[i])
    }

    open spec fn shrinks_to(&self, v: Vec<S::Value>, r: Seq<Vec<S::Value>>) -> bool {
        exists|parts: Seq<Seq<S::Value>>|
            {
                &&& vec_shrink_layout(self.spec_min(), v@, r, parts)
                &&& forall|i: int| 0 <= i < v@.len() ==> #[trigger] self.spec_element().shrinks_to(v@[i], parts[i])
            }
    }

    /// A length drawn in `[min, max)` (no draw when that range is empty),
    /// then that many elements.
    fn new_value(&self, rng: &mut XorShift64, size: usize) -> (r: Result<Vec<S::Value>, String>)
        ensures
            r matches Ok(v) ==> v@.len() == (if self.spec_max() > self.spec_min() {
                self.spec_min() + old(rng).nth_output(0) as int % (self.spec_max() - self.spec_min())
            } else {
                self.spec_min() as int
            }),
    {
        let len = if self.max_len > self.min_len {
            rng.gen_range_usize(self.min_len, self.max_len)
        } else {
            self.min_len
        };
        let mut out: Vec<S::Value> = Vec::new();
        let mut i: usize = 0;
        while i < len
            invariant
                self.wf(),
                i <= len,
                out@.len() == i,
                forall|j: int| 0 <= j < i ==> self.element.produces(#[trigger] out@[j]),
            decreases len - i,
        {
            match self.element.new_value(rng, size) {
                Ok(x) => out.push(x),
                Err(m) => {
                    return Err(m);
                },
            }
            i = i + 1;
        }
        Ok(out)
    }

    fn shrink_value(&self, value: &Vec<S::Value>) -> (r: Vec<Vec<S::Value>>) {
        let len = value.len();
        let mut out: Vec<Vec<S::Value>> = Vec::new();
        let ghost e: nat = if len > self.min_len && self.min_len == 0 { 1 } else { 0 };
        let ghost rm: nat = if len > self.min_len { len as nat } else { 0 };
        if len > self.min_len {
            if self.min_len == 0 {
                out.push(Vec::new());
            }
            let mut i: usize = 0;
            while i < len
                invariant
                    len == value@.len(),
                    len > self.min_len,
                    e == (if self.min_len == 0 { 1nat } else { 0nat }),
                    i <= len,
                    out@.len() == e + i,
                    e == 1 ==> out@[0]@.len() == 0,
                    forall|j: int| 0 <= j < i ==> clones_of(value@.remove(j), #[trigger] out@[e + j]@),
                decreases len - i,
            {
                let mut v = value.clone();
                let ghost cl = v@;
                v.remove(i);
                proof {
                    assert forall|j: int| 0 <= j < value@.remove(i as int).len() implies cloned(#[trigger] value@.remove(i as int)[j], v@[j]) by {
                        if j < i {
                            assert(value@.remove(i as int)[j] == value@[j]);
                            assert(v@[j] == cl[j]);
                        } else {
                            assert(value@.remove(i as int)[j] == value@[j + 1]);
                            assert(v@[j] == cl[j + 1]);
                        }
                    }
                }
                out.push(v);
                i = i + 1;
            }
        }
        let ghost fixed: nat = e + rm;
        assert(out@.len() == fixed);
        let ghost mut parts: Seq<Seq<S::Value>> = seq![];
        let mut i: usize = 0;
        while i < len
            invariant
                self.wf(),
                len == value@.len(),
                i <= len,
                fixed == e + rm,
                e == (if len > self.min_len && self.min_len == 0 { 1nat } else { 0nat }),
                rm == (if len > self.min_len { len as nat } else { 0nat }),
                parts.len() == i,
                forall|j: int| 0 <= j < i ==> #[trigger] self.element.shrinks_to(value@[j], parts[j]),
                out@.len() == fixed + parts.flatten().len(),
                e == 1 ==> out@[0]@.len() == 0,
                forall|j: int| 0 <= j < rm ==> clones_of(value@.remove(j), #[trigger] out@[e + j]@),
                forall|q: int|
                    0 <= q < parts.flatten().len() ==> {
                        &&& clones_except(value@, #[trigger] out@[fixed + q]@, owners(parts)[q])
                        &&& out@[fixed + q]@[owners(parts)[q]] == parts.flatten()[q]
                    },
                owners(parts).len() == parts.flatten().len(),
            decreases len - i,
        {
            let mut shrinks = self.element.shrink_value(&value[i]);
            let ghost sh = shrinks@;
            assert(sh.len() == shrinks.len());
            let ghost base = parts.flatten();
            let ghost base_own = owners(parts);
            let mut k: usize = 0;
            while shrinks.len() > 0
                invariant
                    len == value@.len(),
                    i < len,
                    fixed == e + rm,
                    e == 1 ==> out@[0]@.len() == 0,
                    forall|j: int| 0 <= j < rm ==> clones_of(value@.remove(j), #[trigger] out@[e + j]@),
                    k <= sh.len(),
                    sh.len() <= usize::MAX,
                    shrinks@ == sh.skip(k as int),
                    base_own.len() == base.len(),
                    out@.len() == fixed + base.len() + k,
                    forall|q: int|
                        0 <= q < base.len() + k ==> {
                            &&& clones_except(value@, #[trigger] out@[fixed + q]@, (base_own + Seq::new(k as nat, |j: int| i as int))[q])
                            &&& out@[fixed + q]@[(base_own + Seq::new(k as nat, |j: int| i as int))[q]] == (base + sh.take(k as int))[q]
                        },
                decreases shrinks@.len(),
            {
                let s = shrinks.remove(0);
                proof {
                    assert(s == sh[k as int]);
                    assert(shrinks@ == sh.skip(k + 1));
                }
                let mut v = value.clone();
                v.set(i, s);
                let ghost before = out@;
                out.push(v);
                proof {
                    let o1 = base_own + Seq::new(k as nat, |j: int| i as int);
                    let o2 = base_own + Seq::new((k + 1) as nat, |j: int| i as int);
                    let p1 = base + sh.take(k as int);
                    let p2 = base + sh.take(k + 1);
                    assert forall|q: int| 0 <= q < base.len() + k + 1 implies {
                        &&& clones_except(value@, #[trigger] out@[fixed + q]@, o2[q])
                        &&& out@[fixed + q]@[o2[q]] == p2[q]
                    } by {
                        if q < base.len() + k {
                            assert(out@[fixed + q] == before[fixed + q]);
                            assert(o2[q] == o1[q]);
                            assert(p2[q] == p1[q]);
                        } else {
                            assert(o2[q] == i);
                            assert(p2[q] == s);
                        }
                    }
                }
                k = k + 1;
            }
            proof {
                assert(sh.take(k as int) == sh);
                lemma_owners_push(parts, sh);
                parts.lemma_flatten_push(sh);
                parts = parts.push(sh);
            }
            i = i + 1;
        }
        proof {
            assert forall|k: int| e <= k < fixed implies clones_of(value@.remove(k - e), #[trigger] out@[k]@) by {
                let j = k - e;
                assert(clones_of(value@.remove(j), out@[e + j]@));
            }
            assert forall|k: int| fixed <= k < out@.len() implies {
                &&& clones_except(value@, #[trigger] out@[k]@, owners(parts)[k - fixed])
                &&& out@[k]@[owners(parts)[k - fixed]] == parts.flatten()[k - fixed]
            } by {
                let q = k - fixed;
                assert(clones_except(value@, out@[fixed + q]@, owners(parts)[q]));
            }
            assert(vec_shrink_layout(self.spec_min(), value@, out@, parts));
            assert forall|j: int| 0 <= j < value@.len() implies #[trigger] self.spec_element().shrinks_to(value@[j], parts[j]) by {
                assert(self.element.shrinks_to(value@[j], parts[j]));
            }
        }
        out
    }
}

/// The length of a vector never drops below the strategy's minimum while it
/// shrinks: every candidate of a value at least `min` long is at least `min`
/// long.
pub proof fn law_vec_of_shrinks_keep_min_len<S: Strategy>(
    s: VecOf<S>,
    v: Vec<S::Value>,
    r: Seq<Vec<S::Value>>,
)
    where S::Value: Clone,
    requires
        s.shrinks_to(v, r),
        v@.len() >= s.spec_min(),
    ensures
        forall|k: int| 0 <= k < r.len() ==> #[trigger] r[k]@.len() >= s.spec_min(),
{
    let parts = choose|parts: Seq<Seq<S::Value>>|
        {
            &&& vec_shrink_layout(s.spec_min(), v@, r, parts)
            &&& forall|i: int| 0 <= i < v@.len() ==> #[trigger] s.spec_element().shrinks_to(v@[i], parts[i])
        };
    lemma_vec_layout_min_len(s.spec_min(), v@, r, parts);
}

/// Every candidate in a vector shrink layout keeps at least `min` elements
/// when the vector has that many.
proof fn lemma_vec_layout_min_len<T: Clone>(min: usize, v: Seq<T>, r: Seq<Vec<T>>, parts: Seq<Seq<T>>)
    requires
        vec_shrink_layout(min, v, r, parts),
        v.len() >= min,
    ensures
        forall|k: int| 0 <= k < r.len() ==> #[trigger] r[k]@.len() >= min,
{
    let n = v.len();
    let e: nat = if n > min && min == 0 {
        1
    } else {
        0
    };
    let rm: nat = if n > min {
        n
    } else {
        0
    };
    let fixed = e + rm;
    let own = owners(parts);
    assert forall|k: int| 0 <= k < r.len() implies #[trigger] r[k]@.len() >= min by {
        if k < e {
        } else if k < fixed {
            assert(clones_of(v.remove(k - e), r[k]@));
        } else {
            assert(clones_except(v, r[k]@, own[k - fixed]));
        }
    }
}

/// Generates pairs from two strategies; shrinks the first component, then
/// the second.
pub struct Tuple2<A, B>(pub A, pub B);

/// The strategy of pairs of an `a` value and a `b` value.
pub fn tuple<A: Strategy, B: Strategy>(a: A, b: B) -> (r: Tuple2<A, B>)
    ensures
        r.0 == a,
        r.1 == b,
{
    Tuple2(a, b)
}

impl<A: Strategy, B: Strategy> Strategy for Tuple2<A, B> where A::Value: Clone, B::Value: Clone {
    /// An error of either part.
    open spec fn fails_with(&self, m: Seq<char>) -> bool {
        self.0.fails_with(m) || self.1.fails_with(m)
    }

    type Value = (A::Value, B::Value);

    open spec fn always_some(&self) -> bool {
        self.0.always_some() && self.1.always_some()
    }

    open spec fn wf(&self) -> bool {
        self.0.wf() && self.1.wf()
    }

    open spec fn produces(&self, v: (A::Value, B::Value)) -> bool {
        self.0.produces(v.0) && self.1.produces(v.1)
    }

    /// The first component's candidates paired with a clone of the second,
    /// then a clone of the first paired with the second's candidates.
    open spec fn shrinks_to(&self, v: (A::Value, B::Value), r: Seq<(A::Value, B::Value)>) -> bool {
        exists|sa: Seq<A::Value>, sb: Seq<B::Value>|
            {
                &&& self.0.shrinks_to(v.0, sa)
                &&& self.1.shrinks_to(v.1, sb)
                &&& r.len() == sa.len() + sb.len()
                &&& forall|i: int| 0 <= i < sa.len() ==> (#[trigger] r[i]).0 == sa[i] && cloned(v.1, r[i].1)
                &&& forall|i: int| 0 <= i < sb.len() ==> (#[trigger] r[sa.len() + i]).1 == sb[i] && cloned(v.0, r[sa.len() + i].0)
            }
    }

    fn new_value(&self, rng: &mut XorShift64, size: usize) -> (r: Result<(A::Value, B::Value), String>) {
        let a = match self.0.new_value(rng, size) {
            Ok(a) => a,
            Err(m) => {
                return Err(m);
            },
        };
        let b = match self.1.new_value(rng, size) {
            Ok(b) => b,
            Err(m) => {
                return Err(m);
            },
        };
        Ok((a, b))
    }

    fn shrink_value(&self, value: &(A::Value, B::Value)) -> (r: Vec<(A::Value, B::Value)>) {
        let mut out: Vec<(A::Value, B::Value)> = Vec::new();
        let mut sa = self.0.shrink_value(&value.0);
        let ghost sa0 = sa@;
        assert(sa0.len() == sa.len());
        let mut k: usize = 0;
        while sa.len() > 0
            invariant
                k <= sa0.len(),
                sa0.len() <= usize::MAX,
                sa@ == sa0.skip(k as int),
                out@.len() == k,
                forall|i: int| 0 <= i < k ==> (#[trigger] out@[i]).0 == sa0[i] && cloned(value.1, out@[i].1),
            decreases sa@.len(),
        {
            let a = sa.remove(0);
            assert(a == sa0[k as int]);
            assert(sa@ == sa0.skip(k + 1));
            out.push((a, value.1.clone()));
            k = k + 1;
        }
        let mut sb = self.1.shrink_value(&value.1);
        let ghost sb0 = sb@;
        assert(sb0.len() == sb.len());
        let ghost na = sa0.len();
        assert(k == na);
        let mut m: usize = 0;
        while sb.len() > 0
            invariant
                na == sa0.len(),
                m <= sb0.len(),
                sb0.len() <= usize::MAX,
                sb@ == sb0.skip(m as int),
                out@.len() == na + m,
                forall|i: int| 0 <= i < na ==> (#[trigger] out@[i]).0 == sa0[i] && cloned(value.1, out@[i].1),
                forall|i: int| 0 <= i < m ==> (#[trigger] out@[na + i]).1 == sb0[i] && cloned(value.0, out@[na + i].0),
            decreases sb@.len(),
        {
            let b = sb.remove(0);
            assert(b == sb0[m as int]);
            assert(sb@ == sb0.skip(m + 1));
            let ghost before = out@;
            out.push((value.0.clone(), b));
            assert forall|i: int| 0 <= i < na implies (#[trigger] out@[i]).0 == sa0[i] && cloned(value.1, out@[i].1) by {
                assert(out@[i] == before[i]);
            }
            assert forall|i: int| 0 <= i < m + 1 implies (#[trigger] out@[na + i]).1 == sb0[i] && cloned(value.0, out@[na + i].0) by {
                if i < m {
                    assert(out@[na + i] == before[na + i]);
                }
            }
            m = m + 1;
        }
        proof {
            assert(self.0.shrinks_to(value.0, sa0));
            assert(self.1.shrinks_to(value.1, sb0));
        }
        out
    }
}

/// The elements of `xs` whose flag in `keep` is set, in order.
pub open spec fn select<T>(xs: Seq<T>, keep: Seq<bool>) -> Seq<T>
    decreases xs.len(),
{
    if xs.len() == 0 || keep.len() != xs.len() {
        seq![]
    } else if keep.last() {
        select(xs.drop_last(), keep.drop_last()).push(xs.last())
    } else {
        select(xs.drop_last(), keep.drop_last())
    }
}

/// Transforms generated values with a function. Since the function has no
/// inverse, mapped values do not shrink.
pub struct Mapped<S, F, U> {
    inner: S,
    f: F,
    marker: core::marker::PhantomData<U>,
}

impl<S, F, U> Mapped<S, F, U> {
    /// The strategy whose values are transformed.
    pub closed spec fn spec_inner(&self) -> S {
        self.inner
    }

    /// The transformation.
    pub closed spec fn spec_f(&self) -> F {
        self.f
    }
}

impl<S: Strategy, F: Fn(S::Value) -> U, U> Strategy for Mapped<S, F, U> {
    /// An error of the inner strategy.
    open spec fn fails_with(&self, m: Seq<char>) -> bool {
        self.spec_inner().fails_with(m)
    }

    type Value = U;

    open spec fn always_some(&self) -> bool {
        self.spec_inner().always_some()
    }

    open spec fn wf(&self) -> bool {
        &&& self.spec_inner().wf()
        &&& forall|v: S::Value| self.spec_inner().produces(v) ==> call_requires(self.spec_f(), (v,))
    }

    open spec fn produces(&self, u: U) -> bool {
        exists|v: S::Value| self.spec_inner().produces(v) && call_ensures(self.spec_f(), (v,), u)
    }

    open spec fn shrinks_to(&self, u: U, r: Seq<U>) -> bool {
        r.len() == 0
    }

    fn new_value(&self, rng: &mut XorShift64, size: usize) -> (r: Result<U, String>) {
        match self.inner.new_value(rng, size) {
            Ok(v) => Ok((self.f)(v)),
            Err(m) => Err(m),
        }
    }

    fn shrink_value(&self, value: &U) -> (r: Vec<U>) {
        Vec::new()
    }
}

/// Generates a value, builds a second strategy from it, and generates from
/// that. The result keeps no link to the first value, so it does not
/// shrink.
pub struct FlatMap<S, F, S2> {
    inner: S,
    f: F,
    marker: core::marker::PhantomData<S2>,
}

impl<S, F, S2> FlatMap<S, F, S2> {
    /// The strategy of the first value.
    pub closed spec fn spec_inner(&self) -> S {
        self.inner
    }

    /// Builds the second strategy from the first value.
    pub closed spec fn spec_f(&self) -> F {
        self.f
    }
}

impl<S: Strategy, F: Fn(S::Value) -> S2, S2: Strategy> Strategy for FlatMap<S, F, S2> {
    type Value = S2::Value;

    open spec fn always_some(&self) -> bool {
        &&& self.spec_inner().always_some()
        &&& forall|v: S::Value, s2: S2|
            self.spec_inner().produces(v) && call_ensures(self.spec_f(), (v,), s2) ==> s2.always_some()
    }

    open spec fn wf(&self) -> bool {
        &&& self.spec_inner().wf()
        &&& forall|v: S::Value| self.spec_inner().produces(v) ==> call_requires(self.spec_f(), (v,))
        &&& forall|v: S::Value, s2: S2|
            self.spec_inner().produces(v) && call_ensures(self.spec_f(), (v,), s2) ==> s2.wf()
    }

    open spec fn produces(&self, u: S2::Value) -> bool {
        exists|v: S::Value, s2: S2|
            self.spec_inner().produces(v) && call_ensures(self.spec_f(), (v,), s2) && s2.produces(u)
    }

    open spec fn shrinks_to(&self, u: S2::Value, r: Seq<S2::Value>) -> bool {
        r.len() == 0
    }

    fn new_value(&self, rng: &mut XorShift64, size: usize) -> (r: Result<S2::Value, String>) {
        match self.inner.new_value(rng, size) {
            Ok(outer) => {
                let next = (self.f)(outer);
                next.new_value(rng, size)
            },
            Err(m) => Err(m),
        }
    }

    fn shrink_value(&self, value: &S2::Value) -> (r: Vec<S2::Value>) {
        Vec::new()
    }
}

/// Keeps only the values a predicate accepts, redrawing up to `max_tries`
/// times per value.
pub struct Filter<S, F> {
    inner: S,
    pred: F,
    max_tries: usize,
}

impl<S, F> Filter<S, F> {
    /// The strategy whose values are filtered.
    pub closed spec fn spec_inner(&self) -> S {
        self.inner
    }

    /// The predicate.
    pub closed spec fn spec_pred(&self) -> F {
        self.pred
    }

    /// How many candidates one generation may draw.
    pub closed spec fn spec_max_tries(&self) -> usize {
        self.max_tries
    }

    /// Sets how many candidates one generation may draw before giving up.
    pub fn max_tries(self, n: usize) -> (r: Self)
        ensures
            r.spec_inner() == self.spec_inner(),
            r.spec_pred() == self.spec_pred(),
            r.spec_max_tries() == n,
    {
        Filter { inner: self.inner, pred: self.pred, max_tries: n }
    }
}

/// The draws of a filter under size `size`: draw `j` is what the inner
/// strategy generates from the words `ss[j]`, leaving `ss[j + 1]`; there
/// are at most `max_tries` of them, and the predicate rejected every one
/// but the last.
pub open spec fn filter_tries<S: Strategy, F: Fn(&S::Value) -> bool>(
    f: Filter<S, F>,
    size: usize,
    ss: Seq<Stream>,
    vals: Seq<Result<S::Value, String>>,
) -> bool {
    &&& ss.len() == vals.len() + 1
    &&& vals.len() <= f.spec_max_tries()
    &&& forall|j: int| 0 <= j < vals.len() ==> #[trigger] f.spec_inner().generates(ss[j], ss[j + 1], size, vals[j])
    &&& forall|j: int| 0 <= j < vals.len() - 1 ==> rejected(f, #[trigger] vals[j])
}

/// The error of a filter whose predicate rejected all of its `n` draws.
pub open spec fn filter_rejected_text(n: nat) -> Seq<char> {
    "Filter: predicate rejected every candidate after "@ + decimal(n) + " tries"@
}

/// The inner strategy gave a value that the filter's predicate rejected.
pub open spec fn rejected<S: Strategy, F: Fn(&S::Value) -> bool>(f: Filter<S, F>, o: Result<S::Value, String>) -> bool {
    o matches Ok(v) && call_ensures(f.spec_pred(), (&v,), false)
}

impl<S: Strategy, F: Fn(&S::Value) -> bool> Strategy for Filter<S, F> {
    /// Its own rejection error, or one of the inner strategy's.
    open spec fn fails_with(&self, m: Seq<char>) -> bool {
        m == filter_rejected_text(self.spec_max_tries() as nat) || self.spec_inner().fails_with(m)
    }

    /// The last of the draws of [`filter_tries`] from `before` to `after`:
    /// a value the predicate accepted; or, after `max_tries` rejections, the
    /// error [`filter_rejected_text`]; or the inner strategy's error.
    open spec fn generates(&self, before: Stream, after: Stream, size: usize, r: Result<S::Value, String>) -> bool {
        exists|ss: Seq<Stream>, vals: Seq<Result<S::Value, String>>|
            {
                &&& #[trigger] filter_tries(*self, size, ss, vals)
                &&& ss[0] == before
                &&& ss.last() == after
                &&& match r {
                    Ok(v) => vals.len() > 0 && vals.last() == Ok::<S::Value, String>(v) && call_ensures(self.spec_pred(), (&v,), true),
                    Err(m) => (vals.len() == self.spec_max_tries() && (vals.len() == 0 || rejected(*self, vals.last()))
                        && m@ == filter_rejected_text(self.spec_max_tries() as nat))
                        || (vals.len() > 0 && vals.last() == Err::<S::Value, String>(m)),
                }
            }
    }

    type Value = S::Value;

    open spec fn always_some(&self) -> bool {
        &&& self.spec_max_tries() > 0
        &&& self.spec_inner().always_some()
        &&& forall|v: S::Value, b: bool|
            self.spec_inner().produces(v) && call_ensures(self.spec_pred(), (&v,), b) ==> b
    }

    open spec fn wf(&self) -> bool {
        &&& self.spec_inner().wf()
        &&& forall|v: S::Value| call_requires(self.spec_pred(), (&v,))
    }

    open spec fn produces(&self, v: S::Value) -> bool {
        self.spec_inner().produces(v) && call_ensures(self.spec_pred(), (&v,), true)
    }

    /// The inner strategy's candidates that the predicate accepts.
    open spec fn shrinks_to(&self, v: S::Value, r: Seq<S::Value>) -> bool {
        exists|all: Seq<S::Value>, keep: Seq<bool>|
            {
                &&& self.spec_inner().shrinks_to(v, all)
                &&& keep.len() == all.len()
                &&& forall|i: int| 0 <= i < all.len() ==> call_ensures(self.spec_pred(), (&all[i],), #[trigger] keep[i])
                &&& r == select(all, keep)
            }
    }

    /// Draws from the inner strategy until the predicate accepts, at most
    /// `max_tries` times; `None` when every draw was rejected.
    fn new_value(&self, rng: &mut XorShift64, size: usize) -> (r: Result<S::Value, String>) {
        let ghost mut ss: Seq<Stream> = seq![outputs(*rng)];
        let ghost mut vals: Seq<Result<S::Value, String>> = seq![];
        let mut tries: usize = 0;
        while tries < self.max_tries
            invariant
                self.wf(),
                self.always_some() ==> tries == 0,
                tries <= self.max_tries,
                vals.len() == tries,
                filter_tries(*self, size, ss, vals),
                ss[0] == outputs(*old(rng)),
                ss.last() == outputs(*rng),
                vals.len() > 0 ==> rejected(*self, vals.last()),
            decreases self.max_tries - tries,
        {
            let ghost before = *rng;
            let got = self.inner.new_value(rng, size);
            proof {
                let ns = ss.push(outputs(*rng));
                let nv = vals.push(got);
                assert forall|j: int| 0 <= j < nv.len() implies #[trigger] self.spec_inner().generates(ns[j], ns[j + 1], size, nv[j]) by {
                    if j < vals.len() {
                        assert(ns[j] == ss[j] && ns[j + 1] == ss[j + 1] && nv[j] == vals[j]);
                    } else {
                        assert(ns[j] == outputs(before));
                    }
                }
                assert forall|j: int| 0 <= j < nv.len() - 1 implies rejected(*self, #[trigger] nv[j]) by {
                    assert(nv[j] == vals[j]);
                    if j < vals.len() - 1 {
                        assert(rejected(*self, vals[j]));
                    }
                }
                ss = ns;
                vals = nv;
                assert(filter_tries(*self, size, ss, vals));
            }
            match got {
                Ok(v) => {
                    assert(call_requires(self.spec_pred(), (&v,)));
                    let ok = (self.pred)(&v);
                    if ok {
                        return Ok(v);
                    }
                    assert(!self.always_some());
                    assert(rejected(*self, vals.last()));
                },
                Err(m) => {
                    return Err(m);
                },
            }
            tries = tries + 1;
        }
        let mut m = String::new();
        string_push_str(&mut m, "Filter: predicate rejected every candidate after ");
        push_decimal(&mut m, self.max_tries as u64);
        string_push_str(&mut m, " tries");
        Err(m)
    }

    fn shrink_value(&self, value: &S::Value) -> (r: Vec<S::Value>) {
        let mut all = self.inner.shrink_value(value);
        let ghost all0 = all@;
        assert(all0.len() == all.len());
        let ghost mut keep: Seq<bool> = seq![];
        let mut out: Vec<S::Value> = Vec::new();
        let mut k: usize = 0;
        while all.len() > 0
            invariant
                self.wf(),
                k <= all0.len(),
                all0.len() <= usize::MAX,
                all@ == all0.skip(k as int),
                keep.len() == k,
                forall|i: int| 0 <= i < k ==> call_ensures(self.pred, (&all0[i],), #[trigger] keep[i]),
                out@ == select(all0.take(k as int), keep),
            decreases all@.len(),
        {
            let c = all.remove(0);
            assert(c == all0[k as int]);
            assert(all@ == all0.skip(k + 1));
            assert(call_requires(self.spec_pred(), (&c,)));
            let b = (self.pred)(&c);
            proof {
                assert(all0.take(k + 1).drop_last() == all0.take(k as int));
                assert(keep.push(b).drop_last() == keep);
                assert(all0.take(k + 1).last() == c);
            }
            if b {
                out.push(c);
            }
            proof {
                keep = keep.push(b);
            }
            k = k + 1;
        }
        proof {
            assert(all0.take(k as int) == all0);
            assert(forall|i: int| 0 <= i < all0.len() ==> call_ensures(self.spec_pred(), (&all0[i],), #[trigger] keep[i]));
        }
        out
    }
}

/// The object-safe face of [`Strategy`] that [`BoxedStrategy`] holds.
pub trait ErasedStrategy<T> {
    /// See [`Strategy::wf`].
    spec fn erased_wf(&self) -> bool;

    /// See [`Strategy::produces`].
    spec fn erased_produces(&self, v: T) -> bool;

    /// See [`Strategy::shrinks_to`].
    spec fn erased_shrinks_to(&self, v: T, r: Seq<T>) -> bool;

    /// See [`Strategy::always_some`].
    spec fn erased_always_some(&self) -> bool;

    /// See [`Strategy::fails_with`].
    spec fn erased_fails_with(&self, m: Seq<char>) -> bool;

    /// See [`Strategy::generates`].
    spec fn erased_generates(&self, before: Stream, after: Stream, size: usize, r: Result<T, String>) -> bool;

    /// See [`Strategy::new_value`].
    fn dyn_new_value(&self, rng: &mut XorShift64, size: usize) -> (r: Result<T, String>)
        requires
            self.erased_wf(),
        ensures
            r matches Ok(v) ==> self.erased_produces(v),
            self.erased_always_some() ==> r is Ok,
            r matches Err(m) ==> self.erased_fails_with(m@),
            self.erased_generates(outputs(*old(rng)), outputs(*final(rng)), size, r),
    ;

    /// See [`Strategy::shrink_value`].
    fn dyn_shrink_value(&self, value: &T) -> (r: Vec<T>)
        requires
            self.erased_wf(),
        ensures
            self.erased_shrinks_to(*value, r@),
    ;
}

impl<S: Strategy> ErasedStrategy<S::Value> for S {
    open spec fn erased_wf(&self) -> bool {
        self.wf()
    }

    open spec fn erased_produces(&self, v: S::Value) -> bool {
        self.produces(v)
    }

    open spec fn erased_shrinks_to(&self, v: S::Value, r: Seq<S::Value>) -> bool {
        self.shrinks_to(v, r)
    }

    open spec fn erased_always_some(&self) -> bool {
        self.always_some()
    }

    open spec fn erased_fails_with(&self, m: Seq<char>) -> bool {
        self.fails_with(m)
    }

    open spec fn erased_generates(&self, before: Stream, after: Stream, size: usize, r: Result<S::Value, String>) -> bool {
        self.generates(before, after, size, r)
    }

    fn dyn_new_value(&self, rng: &mut XorShift64, size: usize) -> (r: Result<S::Value, String>) {
        self.new_value(rng, size)
    }

    fn dyn_shrink_value(&self, value: &S::Value) -> (r: Vec<S::Value>) {
        self.shrink_value(value)
    }
}

/// A heap-allocated strategy with its concrete type erased, so that
/// strategies of different types can share a [`one_of`].
#[verifier::reject_recursive_types(T)]
pub struct BoxedStrategy<T> {
    inner: Box<dyn ErasedStrategy<T>>,
}

impl<T> BoxedStrategy<T> {
    /// The erased strategy is usable.
    pub closed spec fn spec_wf(&self) -> bool {
        self.inner.erased_wf()
    }

    /// The erased strategy can generate `v`.
    pub closed spec fn spec_produces(&self, v: T) -> bool {
        self.inner.erased_produces(v)
    }

    /// The erased strategy shrinks `v` to `r`.
    pub closed spec fn spec_shrinks_to(&self, v: T, r: Seq<T>) -> bool {
        self.inner.erased_shrinks_to(v, r)
    }

    /// The erased strategy never gives up.
    pub closed spec fn spec_always_some(&self) -> bool {
        self.inner.erased_always_some()
    }

    /// The erased strategy can give the error `m`.
    pub closed spec fn spec_fails_with(&self, m: Seq<char>) -> bool {
        self.inner.erased_fails_with(m)
    }

    /// What the erased strategy generates from the words `before`.
    pub closed spec fn spec_generates(&self, before: Stream, after: Stream, size: usize, r: Result<T, String>) -> bool {
        self.inner.erased_generates(before, after, size, r)
    }
}

impl<T> Strategy for BoxedStrategy<T> {
    open spec fn fails_with(&self, m: Seq<char>) -> bool {
        self.spec_fails_with(m)
    }

    type Value = T;

    open spec fn always_some(&self) -> bool {
        self.spec_always_some()
    }

    open spec fn wf(&self) -> bool {
        self.spec_wf()
    }

    open spec fn produces(&self, v: T) -> bool {
        self.spec_produces(v)
    }

    open spec fn shrinks_to(&self, v: T, r: Seq<T>) -> bool {
        self.spec_shrinks_to(v, r)
    }

    open spec fn generates(&self, before: Stream, after: Stream, size: usize, r: Result<T, String>) -> bool {
        self.spec_generates(before, after, size, r)
    }

    fn new_value(&self, rng: &mut XorShift64, size: usize) -> (r: Result<T, String>) {
        self.inner.dyn_new_value(rng, size)
    }

    fn shrink_value(&self, value: &T) -> (r: Vec<T>) {
        self.inner.dyn_shrink_value(value)
    }
}

/// Combinators available on every [`Strategy`].
pub trait StrategyExt: Strategy + Sized {
    /// Transforms generated values with `f`; the result does not shrink.
    fn map<F: Fn(Self::Value) -> U, U>(self, f: F) -> (r: Mapped<Self, F, U>)
        ensures
            r.spec_inner() == self,
            r.spec_f() == f,
    {
        Mapped { inner: self, f, marker: core::marker::PhantomData }
    }

    /// Keeps only the values `pred` accepts, drawing at most 256 candidates
    /// per value.
    fn filter<F: Fn(&Self::Value) -> bool>(self, pred: F) -> (r: Filter<Self, F>)
        ensures
            r.spec_inner() == self,
            r.spec_pred() == pred,
            r.spec_max_tries() == 256,
    {
        Filter { inner: self, pred, max_tries: 256 }
    }

    /// Generates a value, builds a strategy from it with `f`, and generates
    /// from that; the result does not shrink.
    fn flat_map<F: Fn(Self::Value) -> S2, S2: Strategy>(self, f: F) -> (r: FlatMap<Self, F, S2>)
        ensures
            r.spec_inner() == self,
            r.spec_f() == f,
    {
        FlatMap { inner: self, f, marker: core::marker::PhantomData }
    }

    /// Erases the concrete type.
    fn boxed(self) -> (r: BoxedStrategy<Self::Value>)
        where Self: 'static
        ensures
            r.wf() == self.wf(),
            r.always_some() == self.always_some(),
            forall|m: Seq<char>| r.fails_with(m) == self.fails_with(m),
            forall|v: Self::Value| r.produces(v) == self.produces(v),
            forall|v: Self::Value, s: Seq<Self::Value>| r.shrinks_to(v, s) == self.shrinks_to(v, s),
            forall|b: Stream, a: Stream, z: usize, o: Result<Self::Value, String>| r.generates(b, a, z, o) == self.generates(b, a, z, o),
    {
        let r = BoxedStrategy { inner: Box::new(self) };
        assert forall|b: Stream, a: Stream, z: usize, o: Result<Self::Value, String>| r.generates(b, a, z, o) == self.generates(b, a, z, o) by {
            assert(r.spec_generates(b, a, z, o) == self.erased_generates(b, a, z, o));
        }
        assert(r.spec_always_some() == self.erased_always_some());
        assert forall|m: Seq<char>| r.fails_with(m) == self.fails_with(m) by {
            assert(r.spec_fails_with(m) == self.erased_fails_with(m));
        }
        assert forall|v: Self::Value| r.produces(v) == self.produces(v) by {
            assert(r.spec_produces(v) == self.erased_produces(v));
        }
        assert forall|v: Self::Value, s: Seq<Self::Value>| r.shrinks_to(v, s) == self.shrinks_to(v, s) by {
            assert(r.spec_shrinks_to(v, s) == self.erased_shrinks_to(v, s));
        }
        r
    }
}

impl<S: Strategy> StrategyExt for S {}

/// `b` generates exactly what some strategy that `inner` returns, when given
/// `a`, generates.
pub open spec fn inner_step<T, R: Strategy<Value = T>, I: Fn(BoxedStrategy<T>) -> R>(
    inner: I,
    a: BoxedStrategy<T>,
    b: BoxedStrategy<T>,
) -> bool {
    exists|s: R| #[trigger] call_ensures(inner, (a,), s) && forall|v: T| #[trigger] b.produces(v) == s.produces(v)
}

/// `stages` are the levels of [`recursive`]: the first generates what `leaf`
/// generates, and each next one is a strategy `inner` returned when given
/// the one before (boxed, so generating what it generates).
pub open spec fn stacked<T, L: Strategy<Value = T>, R: Strategy<Value = T>, I: Fn(BoxedStrategy<T>) -> R>(
    leaf: L,
    inner: I,
    stages: Seq<BoxedStrategy<T>>,
) -> bool {
    &&& stages.len() >= 1
    &&& forall|v: T| stages[0].produces(v) == leaf.produces(v)
    &&& forall|k: int| 0 <= k < stages.len() - 1 ==> #[trigger] inner_step::<T, R, I>(inner, stages[k], stages[k + 1])
}

/// `r` is `inner` stacked `n` times over `leaf`.
pub open spec fn stacked_over<T, L: Strategy<Value = T>, R: Strategy<Value = T>, I: Fn(BoxedStrategy<T>) -> R>(
    leaf: L,
    inner: I,
    n: nat,
    r: BoxedStrategy<T>,
) -> bool {
    exists|stages: Seq<BoxedStrategy<T>>| #[trigger] stacked(leaf, inner, stages) && stages.len() == n + 1 && stages.last() == r
}

/// Stacking `inner` once more: a strategy stacked `n + 1` times generates
/// exactly what `inner` returns when given a strategy stacked `n` times; and
/// stacked zero times it generates what the leaf generates.
pub proof fn law_stacked_levels<T, L: Strategy<Value = T>, R: Strategy<Value = T>, I: Fn(BoxedStrategy<T>) -> R>(
    leaf: L,
    inner: I,
    n: nat,
    r: BoxedStrategy<T>,
)
    requires
        stacked_over(leaf, inner, n, r),
    ensures
        n == 0 ==> forall|v: T| r.produces(v) == leaf.produces(v),
        n > 0 ==> exists|b: BoxedStrategy<T>, s: R|
            stacked_over(leaf, inner, (n - 1) as nat, b) && #[trigger] call_ensures(inner, (b,), s)
                && forall|v: T| #[trigger] r.produces(v) == s.produces(v),
{
    let stages = choose|stages: Seq<BoxedStrategy<T>>| #[trigger] stacked(leaf, inner, stages) && stages.len() == n + 1 && stages.last() == r;
    if n > 0 {
        let k = n - 1;
        let b = stages[k];
        assert(inner_step::<T, R, I>(inner, stages[k], stages[k + 1]));
        let s = choose|s: R| #[trigger] call_ensures(inner, (stages[k],), s) && forall|v: T| #[trigger] stages[k + 1].produces(v) == s.produces(v);
        let prefix = stages.take(n as int);
        assert forall|j: int| 0 <= j < prefix.len() - 1 implies #[trigger] inner_step::<T, R, I>(inner, prefix[j], prefix[j + 1]) by {
            assert(prefix[j] == stages[j] && prefix[j + 1] == stages[j + 1]);
            assert(inner_step::<T, R, I>(inner, stages[j], stages[j + 1]));
        }
        assert(stacked(leaf, inner, prefix));
        assert(prefix.last() == b);
        assert(stacked_over(leaf, inner, (n - 1) as nat, b));
        assert(stages[k + 1] == r);
    }
}

/// Stacks `inner` over `leaf` `max_depth` times: each level is built by
/// `inner` from the strategy built so far, so values nest at most
/// `max_depth` levels deep.
pub fn recursive<L, I, R, T>(leaf: L, inner: I, max_depth: usize) -> (r: BoxedStrategy<T>)
    where
        L: Strategy<Value = T> + 'static,
        R: Strategy<Value = T> + 'static,
        I: Fn(BoxedStrategy<T>) -> R,
    requires
        leaf.wf(),
        forall|b: BoxedStrategy<T>| b.wf() ==> call_requires(inner, (b,)),
        forall|b: BoxedStrategy<T>, s: R| b.wf() && call_ensures(inner, (b,), s) ==> s.wf(),
    ensures
        r.wf(),
        max_depth == 0 ==> forall|v: T| r.produces(v) == leaf.produces(v),
        stacked_over(leaf, inner, max_depth as nat, r),
{
    let mut current: BoxedStrategy<T> = leaf.boxed();
    let ghost mut stages: Seq<BoxedStrategy<T>> = seq![current];
    let mut d: usize = 0;
    while d < max_depth
        invariant
            current.wf(),
            d <= max_depth,
            forall|b: BoxedStrategy<T>| b.wf() ==> call_requires(inner, (b,)),
            forall|b: BoxedStrategy<T>, s: R| b.wf() && call_ensures(inner, (b,), s) ==> s.wf(),
            d == 0 ==> forall|v: T| current.produces(v) == leaf.produces(v),
            stacked(leaf, inner, stages),
            stages.len() == d + 1,
            stages.last() == current,
        decreases max_depth - d,
    {
        let ghost prev = current;
        let next = inner(current);
        let ghost out = next;
        current = next.boxed();
        proof {
            let ns = stages.push(current);
            assert(call_ensures(inner, (prev,), out));
            assert(forall|v: T| #[trigger] current.produces(v) == out.produces(v));
            assert(inner_step::<T, R, I>(inner, prev, current));
            assert forall|k: int| 0 <= k < ns.len() - 1 implies #[trigger] inner_step::<T, R, I>(inner, ns[k], ns[k + 1]) by {
                if k < stages.len() - 1 {
                    assert(ns[k] == stages[k] && ns[k + 1] == stages[k + 1]);
                    assert(inner_step::<T, R, I>(inner, stages[k], stages[k + 1]));
                } else {
                    assert(ns[k] == prev && ns[k + 1] == current);
                }
            }
            assert(ns[0] == stages[0]);
            stages = ns;
        }
        d = d + 1;
    }
    current
}

} // verus!
