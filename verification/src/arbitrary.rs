//! The [`Arbitrary`] trait and its implementations for common types.
//!
//! A type that implements [`Arbitrary`] can be generated at random from a
//! [`Rng`] and a `size` hint, and can propose strictly smaller candidates for
//! a counterexample, which the runner walks to find a minimal failing input.
use vstd::prelude::*;
use vstd::arithmetic::power2::{pow2, lemma2_to64, lemma2_to64_rest, lemma_pow2_adds, lemma_pow2_pos, lemma_pow2_strictly_increases};
use vstd::bits::{lemma_u64_shl_is_mul, lemma_u64_low_bits_mask_is_mod, low_bits_mask};
use crate::rng::{Rng, Stream, outputs};
use crate::strategy::{owners, lemma_owners_push};
use crate::shrink::{shrink_toward_zero_u128, shrink_signed_i128, toward_zero, signed_toward_zero, halvings, law_toward_zero_shrinks, law_signed_toward_zero_shrinks, lemma_halvings_bounds};

verus! {

/// A type whose values can be generated at random and shrunk.
///
/// `arbitrary` builds a value whose "size" (a collection's length, an
/// integer's bit width, …) is bounded by `size`; the runner grows `size`
/// over a run. `shrink` lists candidates strictly smaller than `self`,
/// smallest first; an empty list means no smaller value is known.
pub trait Arbitrary: Sized {
    /// `v` is what [`Arbitrary::arbitrary`] hands out, with size `size`,
    /// when it starts on the generator `before` and leaves it as `after`.
    /// Implementations that state nothing about their values keep this
    /// default.
    open spec fn arbitrary_from(before: Stream, after: Stream, size: usize, v: Self) -> bool {
        true
    }

    /// Generates a value.
    fn arbitrary<R: Rng>(rng: &mut R, size: usize) -> (r: Self)
        ensures
            Self::arbitrary_from(outputs(*old(rng)), outputs(*final(rng)), size, r),
    ;

    /// `r` is the list of candidates that [`Arbitrary::shrink`] returns for
    /// `self`. Implementations that state nothing about their candidates
    /// keep this default.
    open spec fn shrinks_to(&self, r: Seq<Self>) -> bool {
        true
    }

    /// Lists strictly smaller candidates.
    fn shrink(&self) -> (r: Vec<Self>)
        ensures
            self.shrinks_to(r@),
    ;
}

/// The bit width an integer type of `type_bits` bits is drawn with under
/// `size`: about twice `size`, at least 8, at most the type's width, so that
/// early cases are small.
pub open spec fn size_bits(type_bits: nat, size: usize) -> nat {
    let doubled: nat = if size as nat * 2 > usize::MAX as nat {
        usize::MAX as nat
    } else {
        size as nat * 2
    };
    let at_least: nat = if doubled < 8 {
        8
    } else {
        doubled
    };
    if type_bits < at_least {
        type_bits
    } else {
        at_least
    }
}

/// The low `bits` bits of the 128-bit word whose high half is `high` and low
/// half is `low`.
pub open spec fn low_bits_of_pair(high: u64, low: u64, bits: nat) -> nat {
    if bits <= 64 {
        (low as nat) % pow2(bits)
    } else {
        ((high as nat) % pow2((bits - 64) as nat)) * pow2(64) + low as nat
    }
}

/// The two's-complement value of the `bits`-bit pattern `v`.
pub open spec fn sign_extend(v: nat, bits: nat) -> int {
    if v >= pow2((bits - 1) as nat) {
        v - pow2(bits)
    } else {
        v as int
    }
}

/// The bit width used for a type of `type_bits` bits under `size`.
pub fn size_bits_for(type_bits: u32, size: usize) -> (r: u32)
    requires
        8 <= type_bits <= 128,
    ensures
        r as nat == size_bits(type_bits as nat, size),
        8 <= r <= type_bits,
{
    let doubled: usize = if size > usize::MAX / 2 {
        usize::MAX
    } else {
        size * 2
    };
    let at_least: usize = if doubled < 8 {
        8
    } else {
        doubled
    };
    if (type_bits as usize) < at_least {
        type_bits
    } else {
        at_least as u32
    }
}

/// `x mod 2^bits` for `bits <= 64`, by masking.
fn low_bits_u64(x: u64, bits: u32) -> (r: u64)
    requires
        bits <= 64,
    ensures
        r as nat == (x as nat) % pow2(bits as nat),
{
    proof {
        lemma2_to64();
        lemma2_to64_rest();
    }
    if bits == 64 {
        x
    } else {
        proof {
            vstd::bits::lemma_u64_pow2_no_overflow(bits as nat);
            lemma_u64_shl_is_mul(1, bits as u64);
            lemma_u64_low_bits_mask_is_mod(x, bits as nat);
        }
        let mask: u64 = (1u64 << bits as u64) - 1;
        assert(mask == low_bits_mask(bits as nat) as u64);
        x & mask
    }
}

/// Draws two words and keeps the low `bits` bits of the 128-bit word they
/// form (the first word is the high half).
pub fn draw_unsigned<R: Rng>(rng: &mut R, bits: u32) -> (r: u128)
    requires
        8 <= bits <= 128,
    ensures
        r as nat == low_bits_of_pair(old(rng).nth_output(0), old(rng).nth_output(1), bits as nat),
        (r as nat) < pow2(bits as nat),
        forall|k: nat| #[trigger] final(rng).nth_output(k) == old(rng).nth_output(k + 2),
{
    let ghost r0 = *rng;
    let high = rng.next_u64();
    let ghost r1 = *rng;
    let low = rng.next_u64();
    proof {
        assert(low == r1.nth_output(0));
        assert(r1.nth_output(0) == r0.nth_output(1));
        lemma2_to64();
        lemma2_to64_rest();
        lemma_pow2_pos(bits as nat);
    }
    if bits <= 64 {
        let v = low_bits_u64(low, bits);
        v as u128
    } else {
        let hm = low_bits_u64(high, bits - 64);
        proof {
            lemma_pow2_adds((bits - 64) as nat, 64);
            assert((hm as nat) < pow2((bits - 64) as nat));
            assert((hm as nat) * pow2(64) + (low as nat) < pow2((bits - 64) as nat) * pow2(64)) by (nonlinear_arith)
                requires
                    (hm as nat) < pow2((bits - 64) as nat),
                    (low as nat) < pow2(64),
            ;
            if bits < 128 {
                lemma_pow2_strictly_increases(bits as nat, 128);
            }
            lemma_pow2_adds(64, 64);
            assert(pow2(128) == 0x1_0000_0000_0000_0000_0000_0000_0000_0000);
        }
        (hm as u128) * 0x1_0000_0000_0000_0000u128 + (low as u128)
    }
}

/// `2^e` as a `u128`.
fn pow2_u128(e: u32) -> (r: u128)
    requires
        e < 128,
    ensures
        r as nat == pow2(e as nat),
{
    proof {
        lemma2_to64();
        lemma2_to64_rest();
    }
    if e < 64 {
        proof {
            vstd::bits::lemma_u64_pow2_no_overflow(e as nat);
            lemma_u64_shl_is_mul(1, e as u64);
        }
        (1u64 << e as u64) as u128
    } else {
        proof {
            vstd::bits::lemma_u64_pow2_no_overflow((e - 64) as nat);
            lemma_u64_shl_is_mul(1, (e - 64) as u64);
            lemma_pow2_adds((e - 64) as nat, 64);
            lemma_pow2_strictly_increases((e - 64) as nat, 64);
            assert(pow2((e - 64) as nat) * pow2(64) < pow2(64) * pow2(64)) by (nonlinear_arith)
                requires pow2((e - 64) as nat) < pow2(64), pow2(64) > 0;
        }
        let lo: u64 = 1u64 << (e - 64) as u64;
        (lo as u128) * 0x1_0000_0000_0000_0000u128
    }
}

/// Like [`draw_unsigned`], then reads the pattern as two's complement.
pub fn draw_signed<R: Rng>(rng: &mut R, bits: u32) -> (r: i128)
    requires
        8 <= bits <= 128,
    ensures
        r as int == sign_extend(
            low_bits_of_pair(old(rng).nth_output(0), old(rng).nth_output(1), bits as nat),
            bits as nat,
        ),
        -pow2((bits - 1) as nat) <= r < pow2((bits - 1) as nat),
        forall|k: nat| #[trigger] final(rng).nth_output(k) == old(rng).nth_output(k + 2),
{
    let v = draw_unsigned(rng, bits);
    proof {
        lemma_pow2_adds((bits - 1) as nat, 1);
        lemma2_to64();
        if bits < 128 {
            lemma_pow2_strictly_increases((bits - 1) as nat, 127);
        }
        lemma_pow2_adds(63, 64);
        lemma_pow2_adds(64, 64);
        lemma_pow2_adds(63, 1);
        lemma2_to64_rest();
        assert(pow2(127) == 0x8000_0000_0000_0000_0000_0000_0000_0000);
        if bits < 127 {
            lemma_pow2_strictly_increases(bits as nat, 127);
        }
    }
    let half: u128 = pow2_u128(bits - 1);
    if v >= half {
        if bits == 128 {
            ((v - half) as i128) + i128::MIN
        } else {
            (v as i128) - (half as i128) - (half as i128)
        }
    } else {
        v as i128
    }
}

/// `pow2` does not decrease.
pub proof fn lemma_pow2_mono(a: nat, b: nat)
    requires
        a <= b,
    ensures
        pow2(a) <= pow2(b),
{
    if a < b {
        lemma_pow2_strictly_increases(a, b);
    }
}

/// `pow2(bits)` for the widths of the integer types.
proof fn lemma_pow2_widths()
    ensures
        pow2(8) == 0x100,
        pow2(16) == 0x1_0000,
        pow2(32) == 0x1_0000_0000,
        pow2(64) == 0x1_0000_0000_0000_0000,
        pow2(7) == 0x80,
        pow2(15) == 0x8000,
        pow2(31) == 0x8000_0000,
        pow2(63) == 0x8000_0000_0000_0000,
        pow2(127) == 0x8000_0000_0000_0000_0000_0000_0000_0000,
        pow2(128) == 0x1_0000_0000_0000_0000_0000_0000_0000_0000,
{
    lemma2_to64();
    lemma2_to64_rest();
    lemma_pow2_adds(63, 64);
    lemma_pow2_adds(64, 64);
}

impl Arbitrary for u8 {
    open spec fn arbitrary_from(before: Stream, after: Stream, size: usize, v: u8) -> bool {
        &&& v as nat == low_bits_of_pair(
            before(0),
            before(1),
            size_bits(8u32 as nat, size),
        )
        &&& forall|k: nat| #[trigger] after(k) == before(k + 2)
    }

    /// The low `size_bits(8, size)` bits of the next two words.
    fn arbitrary<R: Rng>(rng: &mut R, size: usize) -> (r: u8)
        ensures
            r as nat == low_bits_of_pair(
                old(rng).nth_output(0),
                old(rng).nth_output(1),
                size_bits(8u32 as nat, size),
            ),
            forall|k: nat| #[trigger] final(rng).nth_output(k) == old(rng).nth_output(k + 2),
    {
        let bits = size_bits_for(8u32, size);
        let v = draw_unsigned(rng, bits);
        proof {
            lemma_pow2_mono(bits as nat, 8u32 as nat);
            lemma_pow2_widths();
        }
        v as u8
    }

    open spec fn shrinks_to(&self, r: Seq<u8>) -> bool {
        &&& r.len() == toward_zero(*self as nat).len()
        &&& forall|i: int| 0 <= i < r.len() ==> #[trigger] r[i] as nat == toward_zero(*self as nat)[i]
    }

    /// `0`, then `n - n/2`, `n - n/4`, … toward `n`.
    fn shrink(&self) -> (r: Vec<u8>)
    {
        let c = shrink_toward_zero_u128(*self as u128);
        proof {
            law_toward_zero_shrinks(*self as nat);
        }
        let mut out: Vec<u8> = Vec::new();
        let mut i: usize = 0;
        while i < c.len()
            invariant
                i <= c@.len(),
                c@.len() == toward_zero(*self as nat).len(),
                forall|j: int| 0 <= j < c@.len() ==> #[trigger] c@[j] as nat == toward_zero(*self as nat)[j],
                forall|j: int| 0 <= j < toward_zero(*self as nat).len() ==> #[trigger] toward_zero(*self as nat)[j] < *self as nat,
                out@.len() == i,
                forall|j: int| 0 <= j < i ==> #[trigger] out@[j] as nat == toward_zero(*self as nat)[j],
            decreases c@.len() - i,
        {
            proof {
                assert(c@[i as int] as nat == toward_zero(*self as nat)[i as int]);
            }
            out.push(c[i] as u8);
            i = i + 1;
        }
        out
    }
}

impl Arbitrary for u16 {
    open spec fn arbitrary_from(before: Stream, after: Stream, size: usize, v: u16) -> bool {
        &&& v as nat == low_bits_of_pair(
            before(0),
            before(1),
            size_bits(16u32 as nat, size),
        )
        &&& forall|k: nat| #[trigger] after(k) == before(k + 2)
    }

    /// The low `size_bits(16, size)` bits of the next two words.
    fn arbitrary<R: Rng>(rng: &mut R, size: usize) -> (r: u16)
        ensures
            r as nat == low_bits_of_pair(
                old(rng).nth_output(0),
                old(rng).nth_output(1),
                size_bits(16u32 as nat, size),
            ),
            forall|k: nat| #[trigger] final(rng).nth_output(k) == old(rng).nth_output(k + 2),
    {
        let bits = size_bits_for(16u32, size);
        let v = draw_unsigned(rng, bits);
        proof {
            lemma_pow2_mono(bits as nat, 16u32 as nat);
            lemma_pow2_widths();
        }
        v as u16
    }

    open spec fn shrinks_to(&self, r: Seq<u16>) -> bool {
        &&& r.len() == toward_zero(*self as nat).len()
        &&& forall|i: int| 0 <= i < r.len() ==> #[trigger] r[i] as nat == toward_zero(*self as nat)[i]
    }

    /// `0`, then `n - n/2`, `n - n/4`, … toward `n`.
    fn shrink(&self) -> (r: Vec<u16>)
    {
        let c = shrink_toward_zero_u128(*self as u128);
        proof {
            law_toward_zero_shrinks(*self as nat);
        }
        let mut out: Vec<u16> = Vec::new();
        let mut i: usize = 0;
        while i < c.len()
            invariant
                i <= c@.len(),
                c@.len() == toward_zero(*self as nat).len(),
                forall|j: int| 0 <= j < c@.len() ==> #[trigger] c@[j] as nat == toward_zero(*self as nat)[j],
                forall|j: int| 0 <= j < toward_zero(*self as nat).len() ==> #[trigger] toward_zero(*self as nat)[j] < *self as nat,
                out@.len() == i,
                forall|j: int| 0 <= j < i ==> #[trigger] out@[j] as nat == toward_zero(*self as nat)[j],
            decreases c@.len() - i,
        {
            proof {
                assert(c@[i as int] as nat == toward_zero(*self as nat)[i as int]);
            }
            out.push(c[i] as u16);
            i = i + 1;
        }
        out
    }
}

impl Arbitrary for u32 {
    open spec fn arbitrary_from(before: Stream, after: Stream, size: usize, v: u32) -> bool {
        &&& v as nat == low_bits_of_pair(
            before(0),
            before(1),
            size_bits(32u32 as nat, size),
        )
        &&& forall|k: nat| #[trigger] after(k) == before(k + 2)
    }

    /// The low `size_bits(32, size)` bits of the next two words.
    fn arbitrary<R: Rng>(rng: &mut R, size: usize) -> (r: u32)
        ensures
            r as nat == low_bits_of_pair(
                old(rng).nth_output(0),
                old(rng).nth_output(1),
                size_bits(32u32 as nat, size),
            ),
            forall|k: nat| #[trigger] final(rng).nth_output(k) == old(rng).nth_output(k + 2),
    {
        let bits = size_bits_for(32u32, size);
        let v = draw_unsigned(rng, bits);
        proof {
            lemma_pow2_mono(bits as nat, 32u32 as nat);
            lemma_pow2_widths();
        }
        v as u32
    }

    open spec fn shrinks_to(&self, r: Seq<u32>) -> bool {
        &&& r.len() == toward_zero(*self as nat).len()
        &&& forall|i: int| 0 <= i < r.len() ==> #[trigger] r[i] as nat == toward_zero(*self as nat)[i]
    }

    /// `0`, then `n - n/2`, `n - n/4`, … toward `n`.
    fn shrink(&self) -> (r: Vec<u32>)
    {
        let c = shrink_toward_zero_u128(*self as u128);
        proof {
            law_toward_zero_shrinks(*self as nat);
        }
        let mut out: Vec<u32> = Vec::new();
        let mut i: usize = 0;
        while i < c.len()
            invariant
                i <= c@.len(),
                c@.len() == toward_zero(*self as nat).len(),
                forall|j: int| 0 <= j < c@.len() ==> #[trigger] c@[j] as nat == toward_zero(*self as nat)[j],
                forall|j: int| 0 <= j < toward_zero(*self as nat).len() ==> #[trigger] toward_zero(*self as nat)[j] < *self as nat,
                out@.len() == i,
                forall|j: int| 0 <= j < i ==> #[trigger] out@[j] as nat == toward_zero(*self as nat)[j],
            decreases c@.len() - i,
        {
            proof {
                assert(c@[i as int] as nat == toward_zero(*self as nat)[i as int]);
            }
            out.push(c[i] as u32);
            i = i + 1;
        }
        out
    }
}

impl Arbitrary for u64 {
    open spec fn arbitrary_from(before: Stream, after: Stream, size: usize, v: u64) -> bool {
        &&& v as nat == low_bits_of_pair(
            before(0),
            before(1),
            size_bits(64u32 as nat, size),
        )
        &&& forall|k: nat| #[trigger] after(k) == before(k + 2)
    }

    /// The low `size_bits(64, size)` bits of the next two words.
    fn arbitrary<R: Rng>(rng: &mut R, size: usize) -> (r: u64)
        ensures
            r as nat == low_bits_of_pair(
                old(rng).nth_output(0),
                old(rng).nth_output(1),
                size_bits(64u32 as nat, size),
            ),
            forall|k: nat| #[trigger] final(rng).nth_output(k) == old(rng).nth_output(k + 2),
    {
        let bits = size_bits_for(64u32, size);
        let v = draw_unsigned(rng, bits);
        proof {
            lemma_pow2_mono(bits as nat, 64u32 as nat);
            lemma_pow2_widths();
        }
        v as u64
    }

    open spec fn shrinks_to(&self, r: Seq<u64>) -> bool {
        &&& r.len() == toward_zero(*self as nat).len()
        &&& forall|i: int| 0 <= i < r.len() ==> #[trigger] r[i] as nat == toward_zero(*self as nat)[i]
    }

    /// `0`, then `n - n/2`, `n - n/4`, … toward `n`.
    fn shrink(&self) -> (r: Vec<u64>)
    {
        let c = shrink_toward_zero_u128(*self as u128);
        proof {
            law_toward_zero_shrinks(*self as nat);
        }
        let mut out: Vec<u64> = Vec::new();
        let mut i: usize = 0;
        while i < c.len()
            invariant
                i <= c@.len(),
                c@.len() == toward_zero(*self as nat).len(),
                forall|j: int| 0 <= j < c@.len() ==> #[trigger] c@[j] as nat == toward_zero(*self as nat)[j],
                forall|j: int| 0 <= j < toward_zero(*self as nat).len() ==> #[trigger] toward_zero(*self as nat)[j] < *self as nat,
                out@.len() == i,
                forall|j: int| 0 <= j < i ==> #[trigger] out@[j] as nat == toward_zero(*self as nat)[j],
            decreases c@.len() - i,
        {
            proof {
                assert(c@[i as int] as nat == toward_zero(*self as nat)[i as int]);
            }
            out.push(c[i] as u64);
            i = i + 1;
        }
        out
    }
}

impl Arbitrary for u128 {
    open spec fn arbitrary_from(before: Stream, after: Stream, size: usize, v: u128) -> bool {
        &&& v as nat == low_bits_of_pair(
            before(0),
            before(1),
            size_bits(128u32 as nat, size),
        )
        &&& forall|k: nat| #[trigger] after(k) == before(k + 2)
    }

    /// The low `size_bits(128, size)` bits of the next two words.
    fn arbitrary<R: Rng>(rng: &mut R, size: usize) -> (r: u128)
        ensures
            r as nat == low_bits_of_pair(
                old(rng).nth_output(0),
                old(rng).nth_output(1),
                size_bits(128u32 as nat, size),
            ),
            forall|k: nat| #[trigger] final(rng).nth_output(k) == old(rng).nth_output(k + 2),
    {
        let bits = size_bits_for(128u32, size);
        let v = draw_unsigned(rng, bits);
        proof {
            lemma_pow2_mono(bits as nat, 128u32 as nat);
            lemma_pow2_widths();
        }
        v as u128
    }

    open spec fn shrinks_to(&self, r: Seq<u128>) -> bool {
        &&& r.len() == toward_zero(*self as nat).len()
        &&& forall|i: int| 0 <= i < r.len() ==> #[trigger] r[i] as nat == toward_zero(*self as nat)[i]
    }

    /// `0`, then `n - n/2`, `n - n/4`, … toward `n`.
    fn shrink(&self) -> (r: Vec<u128>)
    {
        let c = shrink_toward_zero_u128(*self as u128);
        proof {
            law_toward_zero_shrinks(*self as nat);
        }
        let mut out: Vec<u128> = Vec::new();
        let mut i: usize = 0;
        while i < c.len()
            invariant
                i <= c@.len(),
                c@.len() == toward_zero(*self as nat).len(),
                forall|j: int| 0 <= j < c@.len() ==> #[trigger] c@[j] as nat == toward_zero(*self as nat)[j],
                forall|j: int| 0 <= j < toward_zero(*self as nat).len() ==> #[trigger] toward_zero(*self as nat)[j] < *self as nat,
                out@.len() == i,
                forall|j: int| 0 <= j < i ==> #[trigger] out@[j] as nat == toward_zero(*self as nat)[j],
            decreases c@.len() - i,
        {
            proof {
                assert(c@[i as int] as nat == toward_zero(*self as nat)[i as int]);
            }
            out.push(c[i] as u128);
            i = i + 1;
        }
        out
    }
}

impl Arbitrary for usize {
    open spec fn arbitrary_from(before: Stream, after: Stream, size: usize, v: usize) -> bool {
        &&& v as nat == low_bits_of_pair(
            before(0),
            before(1),
            size_bits(usize::BITS as nat, size),
        )
        &&& forall|k: nat| #[trigger] after(k) == before(k + 2)
    }

    /// The low `size_bits(usize::BITS, size)` bits of the next two words.
    fn arbitrary<R: Rng>(rng: &mut R, size: usize) -> (r: usize)
        ensures
            r as nat == low_bits_of_pair(
                old(rng).nth_output(0),
                old(rng).nth_output(1),
                size_bits(usize::BITS as nat, size),
            ),
            forall|k: nat| #[trigger] final(rng).nth_output(k) == old(rng).nth_output(k + 2),
    {
        let bits = size_bits_for(usize::BITS, size);
        let v = draw_unsigned(rng, bits);
        proof {
            lemma_pow2_mono(bits as nat, usize::BITS as nat);
            lemma_pow2_widths();
        }
        v as usize
    }

    open spec fn shrinks_to(&self, r: Seq<usize>) -> bool {
        &&& r.len() == toward_zero(*self as nat).len()
        &&& forall|i: int| 0 <= i < r.len() ==> #[trigger] r[i] as nat == toward_zero(*self as nat)[i]
    }

    /// `0`, then `n - n/2`, `n - n/4`, … toward `n`.
    fn shrink(&self) -> (r: Vec<usize>)
    {
        let c = shrink_toward_zero_u128(*self as u128);
        proof {
            law_toward_zero_shrinks(*self as nat);
        }
        let mut out: Vec<usize> = Vec::new();
        let mut i: usize = 0;
        while i < c.len()
            invariant
                i <= c@.len(),
                c@.len() == toward_zero(*self as nat).len(),
                forall|j: int| 0 <= j < c@.len() ==> #[trigger] c@[j] as nat == toward_zero(*self as nat)[j],
                forall|j: int| 0 <= j < toward_zero(*self as nat).len() ==> #[trigger] toward_zero(*self as nat)[j] < *self as nat,
                out@.len() == i,
                forall|j: int| 0 <= j < i ==> #[trigger] out@[j] as nat == toward_zero(*self as nat)[j],
            decreases c@.len() - i,
        {
            proof {
                assert(c@[i as int] as nat == toward_zero(*self as nat)[i as int]);
            }
            out.push(c[i] as usize);
            i = i + 1;
        }
        out
    }
}

impl Arbitrary for i8 {
    open spec fn arbitrary_from(before: Stream, after: Stream, size: usize, v: i8) -> bool {
        &&& v as int == sign_extend(
            low_bits_of_pair(
                before(0),
                before(1),
                size_bits(8u32 as nat, size),
            ),
            size_bits(8u32 as nat, size),
        )
        &&& forall|k: nat| #[trigger] after(k) == before(k + 2)
    }

    /// The low `size_bits(8, size)` bits of the next two words, read as
    /// two's complement.
    fn arbitrary<R: Rng>(rng: &mut R, size: usize) -> (r: i8)
        ensures
            r as int == sign_extend(
                low_bits_of_pair(
                    old(rng).nth_output(0),
                    old(rng).nth_output(1),
                    size_bits(8u32 as nat, size),
                ),
                size_bits(8u32 as nat, size),
            ),
            forall|k: nat| #[trigger] final(rng).nth_output(k) == old(rng).nth_output(k + 2),
    {
        let bits = size_bits_for(8u32, size);
        let v = draw_signed(rng, bits);
        proof {
            lemma_pow2_mono((bits - 1) as nat, (8u32 - 1) as nat);
            lemma_pow2_widths();
        }
        v as i8
    }

    open spec fn shrinks_to(&self, r: Seq<i8>) -> bool {
        &&& r.len() == signed_toward_zero(*self as int, i8::MAX as int).len()
        &&& forall|i: int|
                0 <= i < r.len() ==> #[trigger] r[i] as int == signed_toward_zero(
                    *self as int,
                    i8::MAX as int,
                )[i]
    }

    /// `0`, then `-n` when `n` is negative and `-n` fits, then the halvings
    /// of the magnitude on `n`'s side of zero.
    fn shrink(&self) -> (r: Vec<i8>)
    {
        let c = crate::shrink::shrink_signed_within(*self as i128, i8::MAX as i128);
        proof {
            law_signed_toward_zero_shrinks(*self as int, i8::MIN as int, i8::MAX as int);
        }
        let mut out: Vec<i8> = Vec::new();
        let mut i: usize = 0;
        while i < c.len()
            invariant
                i <= c@.len(),
                c@.len() == signed_toward_zero(*self as int, i8::MAX as int).len(),
                forall|j: int|
                    0 <= j < c@.len() ==> #[trigger] c@[j] as int == signed_toward_zero(
                        *self as int,
                        i8::MAX as int,
                    )[j],
                forall|j: int|
                    0 <= j < c@.len() ==> i8::MIN <= #[trigger] signed_toward_zero(
                        *self as int,
                        i8::MAX as int,
                    )[j] <= i8::MAX,
                out@.len() == i,
                forall|j: int|
                    0 <= j < i ==> #[trigger] out@[j] as int == signed_toward_zero(
                        *self as int,
                        i8::MAX as int,
                    )[j],
            decreases c@.len() - i,
        {
            proof {
                assert(c@[i as int] as int == signed_toward_zero(*self as int, i8::MAX as int)[i as int]);
            }
            out.push(c[i] as i8);
            i = i + 1;
        }
        out
    }
}

impl Arbitrary for i16 {
    open spec fn arbitrary_from(before: Stream, after: Stream, size: usize, v: i16) -> bool {
        &&& v as int == sign_extend(
            low_bits_of_pair(
                before(0),
                before(1),
                size_bits(16u32 as nat, size),
            ),
            size_bits(16u32 as nat, size),
        )
        &&& forall|k: nat| #[trigger] after(k) == before(k + 2)
    }

    /// The low `size_bits(16, size)` bits of the next two words, read as
    /// two's complement.
    fn arbitrary<R: Rng>(rng: &mut R, size: usize) -> (r: i16)
        ensures
            r as int == sign_extend(
                low_bits_of_pair(
                    old(rng).nth_output(0),
                    old(rng).nth_output(1),
                    size_bits(16u32 as nat, size),
                ),
                size_bits(16u32 as nat, size),
            ),
            forall|k: nat| #[trigger] final(rng).nth_output(k) == old(rng).nth_output(k + 2),
    {
        let bits = size_bits_for(16u32, size);
        let v = draw_signed(rng, bits);
        proof {
            lemma_pow2_mono((bits - 1) as nat, (16u32 - 1) as nat);
            lemma_pow2_widths();
        }
        v as i16
    }

    open spec fn shrinks_to(&self, r: Seq<i16>) -> bool {
        &&& r.len() == signed_toward_zero(*self as int, i16::MAX as int).len()
        &&& forall|i: int|
                0 <= i < r.len() ==> #[trigger] r[i] as int == signed_toward_zero(
                    *self as int,
                    i16::MAX as int,
                )[i]
    }

    /// `0`, then `-n` when `n` is negative and `-n` fits, then the halvings
    /// of the magnitude on `n`'s side of zero.
    fn shrink(&self) -> (r: Vec<i16>)
    {
        let c = crate::shrink::shrink_signed_within(*self as i128, i16::MAX as i128);
        proof {
            law_signed_toward_zero_shrinks(*self as int, i16::MIN as int, i16::MAX as int);
        }
        let mut out: Vec<i16> = Vec::new();
        let mut i: usize = 0;
        while i < c.len()
            invariant
                i <= c@.len(),
                c@.len() == signed_toward_zero(*self as int, i16::MAX as int).len(),
                forall|j: int|
                    0 <= j < c@.len() ==> #[trigger] c@[j] as int == signed_toward_zero(
                        *self as int,
                        i16::MAX as int,
                    )[j],
                forall|j: int|
                    0 <= j < c@.len() ==> i16::MIN <= #[trigger] signed_toward_zero(
                        *self as int,
                        i16::MAX as int,
                    )[j] <= i16::MAX,
                out@.len() == i,
                forall|j: int|
                    0 <= j < i ==> #[trigger] out@[j] as int == signed_toward_zero(
                        *self as int,
                        i16::MAX as int,
                    )[j],
            decreases c@.len() - i,
        {
            proof {
                assert(c@[i as int] as int == signed_toward_zero(*self as int, i16::MAX as int)[i as int]);
            }
            out.push(c[i] as i16);
            i = i + 1;
        }
        out
    }
}

impl Arbitrary for i32 {
    open spec fn arbitrary_from(before: Stream, after: Stream, size: usize, v: i32) -> bool {
        &&& v as int == sign_extend(
            low_bits_of_pair(
                before(0),
                before(1),
                size_bits(32u32 as nat, size),
            ),
            size_bits(32u32 as nat, size),
        )
        &&& forall|k: nat| #[trigger] after(k) == before(k + 2)
    }

    /// The low `size_bits(32, size)` bits of the next two words, read as
    /// two's complement.
    fn arbitrary<R: Rng>(rng: &mut R, size: usize) -> (r: i32)
        ensures
            r as int == sign_extend(
                low_bits_of_pair(
                    old(rng).nth_output(0),
                    old(rng).nth_output(1),
                    size_bits(32u32 as nat, size),
                ),
                size_bits(32u32 as nat, size),
            ),
            forall|k: nat| #[trigger] final(rng).nth_output(k) == old(rng).nth_output(k + 2),
    {
        let bits = size_bits_for(32u32, size);
        let v = draw_signed(rng, bits);
        proof {
            lemma_pow2_mono((bits - 1) as nat, (32u32 - 1) as nat);
            lemma_pow2_widths();
        }
        v as i32
    }

    open spec fn shrinks_to(&self, r: Seq<i32>) -> bool {
        &&& r.len() == signed_toward_zero(*self as int, i32::MAX as int).len()
        &&& forall|i: int|
                0 <= i < r.len() ==> #[trigger] r[i] as int == signed_toward_zero(
                    *self as int,
                    i32::MAX as int,
                )[i]
    }

    /// `0`, then `-n` when `n` is negative and `-n` fits, then the halvings
    /// of the magnitude on `n`'s side of zero.
    fn shrink(&self) -> (r: Vec<i32>)
    {
        let c = crate::shrink::shrink_signed_within(*self as i128, i32::MAX as i128);
        proof {
            law_signed_toward_zero_shrinks(*self as int, i32::MIN as int, i32::MAX as int);
        }
        let mut out: Vec<i32> = Vec::new();
        let mut i: usize = 0;
        while i < c.len()
            invariant
                i <= c@.len(),
                c@.len() == signed_toward_zero(*self as int, i32::MAX as int).len(),
                forall|j: int|
                    0 <= j < c@.len() ==> #[trigger] c@[j] as int == signed_toward_zero(
                        *self as int,
                        i32::MAX as int,
                    )[j],
                forall|j: int|
                    0 <= j < c@.len() ==> i32::MIN <= #[trigger] signed_toward_zero(
                        *self as int,
                        i32::MAX as int,
                    )[j] <= i32::MAX,
                out@.len() == i,
                forall|j: int|
                    0 <= j < i ==> #[trigger] out@[j] as int == signed_toward_zero(
                        *self as int,
                        i32::MAX as int,
                    )[j],
            decreases c@.len() - i,
        {
            proof {
                assert(c@[i as int] as int == signed_toward_zero(*self as int, i32::MAX as int)[i as int]);
            }
            out.push(c[i] as i32);
            i = i + 1;
        }
        out
    }
}

impl Arbitrary for i64 {
    open spec fn arbitrary_from(before: Stream, after: Stream, size: usize, v: i64) -> bool {
        &&& v as int == sign_extend(
            low_bits_of_pair(
                before(0),
                before(1),
                size_bits(64u32 as nat, size),
            ),
            size_bits(64u32 as nat, size),
        )
        &&& forall|k: nat| #[trigger] after(k) == before(k + 2)
    }

    /// The low `size_bits(64, size)` bits of the next two words, read as
    /// two's complement.
    fn arbitrary<R: Rng>(rng: &mut R, size: usize) -> (r: i64)
        ensures
            r as int == sign_extend(
                low_bits_of_pair(
                    old(rng).nth_output(0),
                    old(rng).nth_output(1),
                    size_bits(64u32 as nat, size),
                ),
                size_bits(64u32 as nat, size),
            ),
            forall|k: nat| #[trigger] final(rng).nth_output(k) == old(rng).nth_output(k + 2),
    {
        let bits = size_bits_for(64u32, size);
        let v = draw_signed(rng, bits);
        proof {
            lemma_pow2_mono((bits - 1) as nat, (64u32 - 1) as nat);
            lemma_pow2_widths();
        }
        v as i64
    }

    open spec fn shrinks_to(&self, r: Seq<i64>) -> bool {
        &&& r.len() == signed_toward_zero(*self as int, i64::MAX as int).len()
        &&& forall|i: int|
                0 <= i < r.len() ==> #[trigger] r[i] as int == signed_toward_zero(
                    *self as int,
                    i64::MAX as int,
                )[i]
    }

    /// `0`, then `-n` when `n` is negative and `-n` fits, then the halvings
    /// of the magnitude on `n`'s side of zero.
    fn shrink(&self) -> (r: Vec<i64>)
    {
        let c = crate::shrink::shrink_signed_within(*self as i128, i64::MAX as i128);
        proof {
            law_signed_toward_zero_shrinks(*self as int, i64::MIN as int, i64::MAX as int);
        }
        let mut out: Vec<i64> = Vec::new();
        let mut i: usize = 0;
        while i < c.len()
            invariant
                i <= c@.len(),
                c@.len() == signed_toward_zero(*self as int, i64::MAX as int).len(),
                forall|j: int|
                    0 <= j < c@.len() ==> #[trigger] c@[j] as int == signed_toward_zero(
                        *self as int,
                        i64::MAX as int,
                    )[j],
                forall|j: int|
                    0 <= j < c@.len() ==> i64::MIN <= #[trigger] signed_toward_zero(
                        *self as int,
                        i64::MAX as int,
                    )[j] <= i64::MAX,
                out@.len() == i,
                forall|j: int|
                    0 <= j < i ==> #[trigger] out@[j] as int == signed_toward_zero(
                        *self as int,
                        i64::MAX as int,
                    )[j],
            decreases c@.len() - i,
        {
            proof {
                assert(c@[i as int] as int == signed_toward_zero(*self as int, i64::MAX as int)[i as int]);
            }
            out.push(c[i] as i64);
            i = i + 1;
        }
        out
    }
}

impl Arbitrary for i128 {
    open spec fn arbitrary_from(before: Stream, after: Stream, size: usize, v: i128) -> bool {
        &&& v as int == sign_extend(
            low_bits_of_pair(
                before(0),
                before(1),
                size_bits(128u32 as nat, size),
            ),
            size_bits(128u32 as nat, size),
        )
        &&& forall|k: nat| #[trigger] after(k) == before(k + 2)
    }

    /// The low `size_bits(128, size)` bits of the next two words, read as
    /// two's complement.
    fn arbitrary<R: Rng>(rng: &mut R, size: usize) -> (r: i128)
        ensures
            r as int == sign_extend(
                low_bits_of_pair(
                    old(rng).nth_output(0),
                    old(rng).nth_output(1),
                    size_bits(128u32 as nat, size),
                ),
                size_bits(128u32 as nat, size),
            ),
            forall|k: nat| #[trigger] final(rng).nth_output(k) == old(rng).nth_output(k + 2),
    {
        let bits = size_bits_for(128u32, size);
        let v = draw_signed(rng, bits);
        proof {
            lemma_pow2_mono((bits - 1) as nat, (128u32 - 1) as nat);
            lemma_pow2_widths();
        }
        v as i128
    }

    open spec fn shrinks_to(&self, r: Seq<i128>) -> bool {
        &&& r.len() == signed_toward_zero(*self as int, i128::MAX as int).len()
        &&& forall|i: int|
                0 <= i < r.len() ==> #[trigger] r[i] as int == signed_toward_zero(
                    *self as int,
                    i128::MAX as int,
                )[i]
    }

    /// `0`, then `-n` when `n` is negative and `-n` fits, then the halvings
    /// of the magnitude on `n`'s side of zero.
    fn shrink(&self) -> (r: Vec<i128>)
    {
        let c = crate::shrink::shrink_signed_within(*self as i128, i128::MAX as i128);
        proof {
            law_signed_toward_zero_shrinks(*self as int, i128::MIN as int, i128::MAX as int);
        }
        let mut out: Vec<i128> = Vec::new();
        let mut i: usize = 0;
        while i < c.len()
            invariant
                i <= c@.len(),
                c@.len() == signed_toward_zero(*self as int, i128::MAX as int).len(),
                forall|j: int|
                    0 <= j < c@.len() ==> #[trigger] c@[j] as int == signed_toward_zero(
                        *self as int,
                        i128::MAX as int,
                    )[j],
                forall|j: int|
                    0 <= j < c@.len() ==> i128::MIN <= #[trigger] signed_toward_zero(
                        *self as int,
                        i128::MAX as int,
                    )[j] <= i128::MAX,
                out@.len() == i,
                forall|j: int|
                    0 <= j < i ==> #[trigger] out@[j] as int == signed_toward_zero(
                        *self as int,
                        i128::MAX as int,
                    )[j],
            decreases c@.len() - i,
        {
            proof {
                assert(c@[i as int] as int == signed_toward_zero(*self as int, i128::MAX as int)[i as int]);
            }
            out.push(c[i] as i128);
            i = i + 1;
        }
        out
    }
}

impl Arbitrary for isize {
    open spec fn arbitrary_from(before: Stream, after: Stream, size: usize, v: isize) -> bool {
        &&& v as int == sign_extend(
            low_bits_of_pair(
                before(0),
                before(1),
                size_bits(isize::BITS as nat, size),
            ),
            size_bits(isize::BITS as nat, size),
        )
        &&& forall|k: nat| #[trigger] after(k) == before(k + 2)
    }

    /// The low `size_bits(isize::BITS, size)` bits of the next two words, read as
    /// two's complement.
    fn arbitrary<R: Rng>(rng: &mut R, size: usize) -> (r: isize)
        ensures
            r as int == sign_extend(
                low_bits_of_pair(
                    old(rng).nth_output(0),
                    old(rng).nth_output(1),
                    size_bits(isize::BITS as nat, size),
                ),
                size_bits(isize::BITS as nat, size),
            ),
            forall|k: nat| #[trigger] final(rng).nth_output(k) == old(rng).nth_output(k + 2),
    {
        let bits = size_bits_for(isize::BITS, size);
        let v = draw_signed(rng, bits);
        proof {
            lemma_pow2_mono((bits - 1) as nat, (isize::BITS - 1) as nat);
            lemma_pow2_widths();
        }
        v as isize
    }

    open spec fn shrinks_to(&self, r: Seq<isize>) -> bool {
        &&& r.len() == signed_toward_zero(*self as int, isize::MAX as int).len()
        &&& forall|i: int|
                0 <= i < r.len() ==> #[trigger] r[i] as int == signed_toward_zero(
                    *self as int,
                    isize::MAX as int,
                )[i]
    }

    /// `0`, then `-n` when `n` is negative and `-n` fits, then the halvings
    /// of the magnitude on `n`'s side of zero.
    fn shrink(&self) -> (r: Vec<isize>)
    {
        let c = crate::shrink::shrink_signed_within(*self as i128, isize::MAX as i128);
        proof {
            law_signed_toward_zero_shrinks(*self as int, isize::MIN as int, isize::MAX as int);
        }
        let mut out: Vec<isize> = Vec::new();
        let mut i: usize = 0;
        while i < c.len()
            invariant
                i <= c@.len(),
                c@.len() == signed_toward_zero(*self as int, isize::MAX as int).len(),
                forall|j: int|
                    0 <= j < c@.len() ==> #[trigger] c@[j] as int == signed_toward_zero(
                        *self as int,
                        isize::MAX as int,
                    )[j],
                forall|j: int|
                    0 <= j < c@.len() ==> isize::MIN <= #[trigger] signed_toward_zero(
                        *self as int,
                        isize::MAX as int,
                    )[j] <= isize::MAX,
                out@.len() == i,
                forall|j: int|
                    0 <= j < i ==> #[trigger] out@[j] as int == signed_toward_zero(
                        *self as int,
                        isize::MAX as int,
                    )[j],
            decreases c@.len() - i,
        {
            proof {
                assert(c@[i as int] as int == signed_toward_zero(*self as int, isize::MAX as int)[i as int]);
            }
            out.push(c[i] as isize);
            i = i + 1;
        }
        out
    }
}

impl Arbitrary for bool {
    open spec fn arbitrary_from(before: Stream, after: Stream, size: usize, v: bool) -> bool {
        &&& v == (before(0) % 2 == 1)
        &&& forall|k: nat| #[trigger] after(k) == before(k + 1)
    }

    /// The lowest bit of the next word.
    fn arbitrary<R: Rng>(rng: &mut R, size: usize) -> (r: bool)
        ensures
            r == (old(rng).nth_output(0) % 2 == 1),
            forall|k: nat| #[trigger] final(rng).nth_output(k) == old(rng).nth_output(k + 1),
    {
        rng.gen_bool()
    }

    open spec fn shrinks_to(&self, r: Seq<bool>) -> bool {
        &&& r == (if *self { seq![false] } else { Seq::<bool>::empty() })
    }

    /// `true` shrinks to `false`; `false` has no smaller value.
    fn shrink(&self) -> (r: Vec<bool>)
    {
        let mut out: Vec<bool> = Vec::new();
        if *self {
            out.push(false);
        }
        out
    }
}

/// The characters whose codes are the valid ones among `codes`, in order.
pub open spec fn chars_from_codes(codes: Seq<nat>) -> Seq<char>
    decreases codes.len(),
{
    if codes.len() == 0 {
        seq![]
    } else {
        let rest = chars_from_codes(codes.drop_last());
        if crate::text::is_scalar_value(codes.last()) {
            rest.push(codes.last() as char)
        } else {
            rest
        }
    }
}

/// The shrink candidates of a character: `'a'` first, then — for characters
/// above `'a'` — the halvings of the distance to `'a'` that are valid
/// characters.
pub open spec fn char_shrinks(c: char) -> Seq<char> {
    if c == 'a' {
        seq![]
    } else if (c as u32) <= 97 {
        seq!['a']
    } else {
        let m: nat = ((c as u32) - 97) as nat;
        seq!['a'] + chars_from_codes(halvings(m, m).map_values(|h: nat| h + 97))
    }
}

/// A surrogate code point drawn from the full code space.
pub open spec fn is_surrogate_draw(x: u64) -> bool {
    !crate::text::is_scalar_value((x % 0x11_0000) as nat)
}

impl Arbitrary for char {
    open spec fn arbitrary_from(before: Stream, after: Stream, size: usize, v: char) -> bool {
        &&& before(0) % 5 != 0 ==> v as u32 == 0x20 + before(1) % 0x5f
        &&& before(0) % 5 == 0 ==> v == 'a' || exists|k: nat|
            1 <= k && v as u32 == #[trigger] before(k) % 0x11_0000 && forall|j: nat|
                1 <= j < k ==> is_surrogate_draw(#[trigger] before(j))
    }

    /// Four draws in five give printable ASCII (`0x20..0x7f`); otherwise any
    /// character of the full code space, redrawing over surrogates.
    fn arbitrary<R: Rng>(rng: &mut R, size: usize) -> (r: char)
        ensures
            old(rng).nth_output(0) % 5 != 0 ==> r as u32 == 0x20 + old(rng).nth_output(1) % 0x5f,
            old(rng).nth_output(0) % 5 == 0 ==> r == 'a' || exists|k: nat|
                1 <= k && r as u32 == #[trigger] old(rng).nth_output(k) % 0x11_0000 && forall|j: nat|
                    1 <= j < k ==> is_surrogate_draw(#[trigger] old(rng).nth_output(j)),
    {
        let ghost start = *rng;
        let pick = rng.gen_range_u64(0, 5);
        if pick > 0 {
            let ghost mid = *rng;
            let code = rng.gen_range_u64(0x20, 0x7f) as u32;
            assert(code as nat == start.nth_output(1) % 0x5f + 0x20) by {
                assert(mid.nth_output(0) == start.nth_output(1));
            }
            match crate::text::char_from_u32(code) {
                Some(c) => c,
                None => 'a',
            }
        } else {
            let mut tries: u64 = u64::MAX;
            let ghost mut k: nat = 1;
            while tries > 0
                invariant
                    1 <= k,
                    forall|j: nat| #[trigger] rng.nth_output(j) == start.nth_output(j + k),
                    forall|j: nat| 1 <= j < k ==> is_surrogate_draw(#[trigger] start.nth_output(j)),
                    start.nth_output(0) % 5 == 0,
                    start == *old(rng),
                decreases tries,
            {
                let code = rng.gen_range_u64(0, 0x11_0000) as u32;
                proof {
                    assert(code as nat == start.nth_output(k) % 0x11_0000);
                }
                match crate::text::char_from_u32(code) {
                    Some(c) => {
                        proof {
                            let st = outputs(start);
                            assert(c as u32 == st(k) % 0x11_0000);
                            assert forall|j: nat| 1 <= j < k implies is_surrogate_draw(#[trigger] st(j)) by {
                                assert(st(j) == start.nth_output(j));
                            }
                        }
                        return c;
                    },
                    None => {},
                }
                proof {
                    k = k + 1;
                }
                tries = tries - 1;
            }
            'a'
        }
    }

    open spec fn shrinks_to(&self, r: Seq<char>) -> bool {
        &&& r == char_shrinks(*self)
    }

    /// `'a'` first, then the halvings of the distance down to `'a'`.
    fn shrink(&self) -> (r: Vec<char>)
    {
        let mut out: Vec<char> = Vec::new();
        if *self == 'a' {
            return out;
        }
        out.push('a');
        let code = *self as u32;
        proof {
            vstd::utf8::char_is_scalar(*self);
        }
        if code > 97 {
            let m: u32 = code - 97;
            let c = shrink_toward_zero_u128(m as u128);
            let ghost hs = halvings(m as nat, m as nat);
            let ghost codes = hs.map_values(|h: nat| h + 97);
            proof {
                lemma_halvings_bounds(m as nat, m as nat);
                assert(toward_zero(m as nat) == seq![0nat] + hs);
            }
            let mut i: usize = 1;
            while i < c.len()
                invariant
                    1 <= i <= c@.len(),
                    c@.len() == toward_zero(m as nat).len(),
                    toward_zero(m as nat) == seq![0nat] + hs,
                    forall|j: int| 0 <= j < c@.len() ==> #[trigger] c@[j] as nat == toward_zero(m as nat)[j],
                    forall|j: int| 0 <= j < hs.len() ==> #[trigger] hs[j] < m,
                    codes == hs.map_values(|h: nat| h + 97),
                    m as nat + 97 == code as nat,
                    code <= 0x10FFFF,
                    out@ == seq!['a'] + chars_from_codes(codes.take(i - 1)),
                decreases c@.len() - i,
            {
                proof {
                    assert(c@[i as int] as nat == hs[i - 1]);
                    assert(codes.take(i as int).drop_last() == codes.take(i - 1));
                }
                let cand: u32 = (c[i] as u32) + 97;
                match crate::text::char_from_u32(cand) {
                    Some(ch) => {
                        out.push(ch);
                        proof {
                            assert(ch == (cand as nat) as char);
                        }
                    },
                    None => {},
                }
                i = i + 1;
                proof {
                    assert(out@ == seq!['a'] + chars_from_codes(codes.take(i - 1)));
                }
            }
            proof {
                assert(codes.take(codes.len() as int) == codes);
            }
        }
        out
    }
}

/// `b` holds clones of the elements of `a`, in order.
pub open spec fn clones_of<T: Clone>(a: Seq<T>, b: Seq<T>) -> bool {
    &&& a.len() == b.len()
    &&& forall|i: int| 0 <= i < a.len() ==> cloned(#[trigger] a[i], b[i])
}

/// `b` has the length of `a` and clones every element of `a` except
/// possibly the one at `i`.
pub open spec fn clones_except<T: Clone>(a: Seq<T>, b: Seq<T>, i: int) -> bool {
    &&& a.len() == b.len()
    &&& 0 <= i < a.len()
    &&& forall|j: int| 0 <= j < a.len() && j != i ==> cloned(#[trigger] a[j], b[j])
}

/// The upper (exclusive) bound of the length drawn for a collection under
/// `size`: `max(size, 1) + 1`, kept within `usize`.
pub open spec fn len_bound(size: usize) -> nat {
    if size == 0 {
        2
    } else if size == usize::MAX {
        usize::MAX as nat
    } else {
        (size + 1) as nat
    }
}

/// The layout of the shrink candidates of a sequence `v`: the empty
/// sequence; then the prefixes whose lengths are the halvings of the length;
/// then (for two or more elements) `v` without each element in turn; then
/// copies of `v` with one element replaced, the element replaced in the
/// `q`-th of these being `origin[q]`, in nondecreasing order.
pub open spec fn seq_shrink_layout<T: Clone>(v: Seq<T>, r: Seq<Vec<T>>, origin: Seq<int>) -> bool {
    let n = v.len();
    let h = halvings(n, n);
    let rm: nat = if n > 1 {
        n
    } else {
        0
    };
    let fixed = 1 + h.len() + rm;
    &&& n == 0 ==> r.len() == 0
    &&& n > 0 ==> {
        &&& r.len() == fixed + origin.len()
        &&& r[0]@.len() == 0
        &&& forall|j: int| 0 <= j < h.len() ==> clones_of(v.take(h[j] as int), #[trigger] r[1 + j]@)
        &&& forall|i: int| 0 <= i < rm ==> clones_of(v.remove(i), #[trigger] r[1 + h.len() + i]@)
        &&& forall|q: int| 0 <= q < origin.len() ==> clones_except(v, #[trigger] r[fixed + q]@, origin[q])
        &&& forall|a: int, b: int| 0 <= a <= b < origin.len() ==> #[trigger] origin[a] <= #[trigger] origin[b]
    }
}

/// The replaced elements of the candidates laid out by
/// [`seq_shrink_layout`] with replacement positions `origin`: `parts[i]` are
/// the element type's own candidates for `v[i]`, and the candidates that
/// replace element `i` hold those, in order, at position `i`.
pub open spec fn elements_shrunk<T: Arbitrary>(v: Seq<T>, r: Seq<Vec<T>>, origin: Seq<int>, parts: Seq<Seq<T>>) -> bool {
    let fixed = r.len() - origin.len();
    &&& parts.len() == v.len()
    &&& forall|i: int| 0 <= i < v.len() ==> #[trigger] v[i].shrinks_to(parts[i])
    &&& origin == owners(parts)
    &&& origin.len() == parts.flatten().len()
    &&& forall|q: int| 0 <= q < origin.len() ==> #[trigger] r[fixed + q]@[origin[q]] == parts.flatten()[q]
}

/// `vs` are values generated in turn: value `i` by a call of `arbitrary`
/// that starts on `states[i]` and leaves the generator as `states[i + 1]`.
pub open spec fn generated_in_turn<T: Arbitrary>(states: Seq<Stream>, size: usize, vs: Seq<T>) -> bool {
    &&& states.len() == vs.len() + 1
    &&& forall|i: int| 0 <= i < vs.len() ==> T::arbitrary_from(#[trigger] states[i], states[i + 1], size, vs[i])
}

/// `vs` is what a vector generator hands out with size `size` when it
/// starts on the words `before` and leaves `after`: its length is the first
/// word modulo [`len_bound`], and its elements are generated in turn from
/// the words after it.
pub open spec fn vec_drawn<T: Arbitrary>(before: Stream, after: Stream, size: usize, vs: Seq<T>) -> bool {
    &&& vs.len() == before(0) as int % len_bound(size) as int
    &&& exists|states: Seq<Stream>|
        #![trigger generated_in_turn(states, size, vs)]
        {
            &&& generated_in_turn(states, size, vs)
            &&& states[0] == (|k: nat| before(k + 1))
            &&& states.last() == after
        }
}

/// Copies of the first `n` elements of `v`.
fn clone_prefix<T: Clone>(v: &Vec<T>, n: usize) -> (r: Vec<T>)
    requires
        n <= v@.len(),
    ensures
        clones_of(v@.take(n as int), r@),
{
    let mut out: Vec<T> = Vec::new();
    let mut i: usize = 0;
    while i < n
        invariant
            i <= n,
            n <= v@.len(),
            clones_of(v@.take(i as int), out@),
        decreases n - i,
    {
        let x = v[i].clone();
        out.push(x);
        i = i + 1;
        assert(clones_of(v@.take(i as int), out@)) by {
            assert forall|j: int| 0 <= j < i implies cloned(#[trigger] v@.take(i as int)[j], out@[j]) by {
                if j < i - 1 {
                    assert(v@.take(i as int)[j] == v@.take(i - 1)[j]);
                }
            }
        }
    }
    out
}

impl<T: Arbitrary + Clone> Arbitrary for Vec<T> {
    open spec fn arbitrary_from(before: Stream, after: Stream, size: usize, v: Vec<T>) -> bool {
        vec_drawn(before, after, size, v@)
    }

    /// A length drawn below [`len_bound`], then that many elements.
    fn arbitrary<R: Rng>(rng: &mut R, size: usize) -> (r: Vec<T>)
        ensures
            r@.len() == old(rng).nth_output(0) as int % len_bound(size) as int,
    {
        let max: usize = if size < 1 {
            1
        } else {
            size
        };
        let hi: usize = if max < usize::MAX {
            max + 1
        } else {
            max
        };
        let ghost g0 = outputs(*rng);
        let len = rng.gen_range_usize(0, hi);
        let mut out: Vec<T> = Vec::new();
        let ghost mut states: Seq<Stream> = seq![outputs(*rng)];
        proof {
            assert(outputs(*rng) =~= (|k: nat| g0(k + 1)));
        }
        let mut i: usize = 0;
        while i < len
            invariant
                i <= len,
                out@.len() == i,
                generated_in_turn(states, size, out@),
                states[0] == (|k: nat| g0(k + 1)),
                states.last() == outputs(*rng),
            decreases len - i,
        {
            let ghost s0 = outputs(*rng);
            let x = T::arbitrary(rng, size);
            proof {
                let ns = states.push(outputs(*rng));
                assert forall|j: int| 0 <= j < out@.push(x).len() implies T::arbitrary_from(
                    #[trigger] ns[j],
                    ns[j + 1],
                    size,
                    out@.push(x)[j],
                ) by {
                    if j < out@.len() {
                        assert(ns[j] == states[j] && ns[j + 1] == states[j + 1]);
                        assert(out@.push(x)[j] == out@[j]);
                    } else {
                        assert(ns[j] == s0);
                    }
                }
                states = ns;
            }
            out.push(x);
            i = i + 1;
        }
        proof {
            assert(generated_in_turn(states, size, out@));
        }
        out
    }

    open spec fn shrinks_to(&self, r: Seq<Vec<T>>) -> bool {
        &&& exists|origin: Seq<int>, parts: Seq<Seq<T>>| seq_shrink_layout(self@, r, origin) && elements_shrunk(self@, r, origin, parts)
    }

    /// Shorter vectors first (empty, halved prefixes, one element removed),
    /// then each element shrunk in place.
    fn shrink(&self) -> (r: Vec<Vec<T>>)
    {
        let len = self.len();
        let mut out: Vec<Vec<T>> = Vec::new();
        let ghost h = halvings(len as nat, len as nat);
        let ghost rm: nat = if len > 1 {
            len as nat
        } else {
            0
        };
        if len == 0 {
            proof {
                assert(seq_shrink_layout(self@, out@, seq![]));
                let parts: Seq<Seq<T>> = seq![];
                assert(owners(parts) == Seq::<int>::empty()) by {
                    assert(Seq::new(parts.len(), |i: int| Seq::new(parts[i].len(), |j: int| i)) == Seq::<Seq<int>>::empty());
                }
                assert(parts.flatten() == Seq::<T>::empty());
                assert(elements_shrunk(self@, out@, seq![], parts));
            }
            return out;
        }
        out.push(Vec::new());
        let mut chunk: usize = len;
        proof {
            lemma_halvings_bounds(len as nat, len as nat);
        }
        while chunk / 2 > 0
            invariant
                0 < chunk <= len,
                len == self@.len(),
                h == halvings(len as nat, len as nat),
                h.len() == out@.len() - 1 + halvings(len as nat, chunk as nat).len(),
                forall|i: int| 0 <= i < halvings(len as nat, chunk as nat).len() ==>
                    #[trigger] halvings(len as nat, chunk as nat)[i] == h[out@.len() - 1 + i],
                out@.len() >= 1,
                out@[0]@.len() == 0,
                forall|j: int| 0 <= j < out@.len() - 1 ==> clones_of(self@.take(h[j] as int), #[trigger] out@[1 + j]@),
            decreases chunk,
        {
            let ghost old_chunk = chunk;
            chunk = chunk / 2;
            proof {
                let hh = halvings(len as nat, old_chunk as nat);
                assert(hh == seq![(len - chunk) as nat] + halvings(len as nat, chunk as nat));
                assert(hh[0] == (len - chunk) as nat);
                assert forall|i: int| 0 <= i < halvings(len as nat, chunk as nat).len() implies
                    #[trigger] halvings(len as nat, chunk as nat)[i] == h[out@.len() + i] by {
                    assert(hh[i + 1] == halvings(len as nat, chunk as nat)[i]);
                }
            }
            let prefix = clone_prefix(self, len - chunk);
            out.push(prefix);
        }
        proof {
            assert(out@.len() == 1 + h.len());
        }
        if len > 1 {
            let mut i: usize = 0;
            while i < len
                invariant
                    len > 1,
                    len == self@.len(),
                    i <= len,
                    h == halvings(len as nat, len as nat),
                    out@.len() == 1 + h.len() + i,
                    out@[0]@.len() == 0,
                    forall|j: int| 0 <= j < h.len() ==> clones_of(self@.take(h[j] as int), #[trigger] out@[1 + j]@),
                    forall|j: int| 0 <= j < i ==> clones_of(self@.remove(j), #[trigger] out@[1 + h.len() + j]@),
                decreases len - i,
            {
                let mut v = self.clone();
                let ghost cl = v@;
                v.remove(i);
                proof {
                    assert forall|j: int| 0 <= j < self@.remove(i as int).len() implies cloned(#[trigger] self@.remove(i as int)[j], v@[j]) by {
                        if j < i {
                            assert(self@.remove(i as int)[j] == self@[j]);
                            assert(v@[j] == cl[j]);
                        } else {
                            assert(self@.remove(i as int)[j] == self@[j + 1]);
                            assert(v@[j] == cl[j + 1]);
                        }
                    }
                }
                out.push(v);
                i = i + 1;
            }
        }
        let ghost fixed: nat = out@.len() as nat;
        assert(fixed == 1 + h.len() + rm);
        let ghost mut at: Seq<int> = seq![];
        let ghost mut parts: Seq<Seq<T>> = seq![];
        proof {
            assert(owners(parts) == Seq::<int>::empty()) by {
                assert(Seq::new(parts.len(), |i: int| Seq::new(parts[i].len(), |j: int| i)) == Seq::<Seq<int>>::empty());
            }
            assert(parts.flatten() == Seq::<T>::empty());
        }
        let mut i: usize = 0;
        while i < len
            invariant
                len == self@.len(),
                len > 0,
                i <= len,
                h == halvings(len as nat, len as nat),
                rm == (if len > 1 { len as nat } else { 0 }),
                fixed == 1 + h.len() + rm,
                out@.len() == fixed + at.len(),
                out@[0]@.len() == 0,
                forall|j: int| 0 <= j < h.len() ==> clones_of(self@.take(h[j] as int), #[trigger] out@[1 + j]@),
                forall|j: int| 0 <= j < rm ==> clones_of(self@.remove(j), #[trigger] out@[1 + h.len() + j]@),
                forall|q: int| 0 <= q < at.len() ==> clones_except(self@, #[trigger] out@[fixed + q]@, at[q]),
                forall|q: int| 0 <= q < at.len() ==> #[trigger] at[q] < i,
                forall|a: int, b: int| 0 <= a <= b < at.len() ==> #[trigger] at[a] <= #[trigger] at[b],
                parts.len() == i,
                forall|j: int| 0 <= j < i ==> #[trigger] self@[j].shrinks_to(parts[j]),
                at == owners(parts),
                at.len() == parts.flatten().len(),
                forall|q: int| 0 <= q < at.len() ==> #[trigger] out@[fixed + q]@[at[q]] == parts.flatten()[q],
            decreases len - i,
        {
            let mut shrinks = self[i].shrink();
            let ghost sh = shrinks@;
            let ghost base = parts.flatten();
            let ghost base_at = at;
            let ghost mut k: nat = 0;
            while shrinks.len() > 0
                invariant
                    len == self@.len(),
                    len > 0,
                    i < len,
                    h == halvings(len as nat, len as nat),
                    rm == (if len > 1 { len as nat } else { 0 }),
                    fixed == 1 + h.len() + rm,
                    out@.len() == fixed + at.len(),
                    out@[0]@.len() == 0,
                    forall|j: int| 0 <= j < h.len() ==> clones_of(self@.take(h[j] as int), #[trigger] out@[1 + j]@),
                    forall|j: int| 0 <= j < rm ==> clones_of(self@.remove(j), #[trigger] out@[1 + h.len() + j]@),
                    forall|q: int| 0 <= q < at.len() ==> clones_except(self@, #[trigger] out@[fixed + q]@, at[q]),
                    forall|q: int| 0 <= q < at.len() ==> #[trigger] at[q] <= i,
                    forall|a: int, b: int| 0 <= a <= b < at.len() ==> #[trigger] at[a] <= #[trigger] at[b],
                    k <= sh.len(),
                    shrinks@ == sh.skip(k as int),
                    base_at.len() == base.len(),
                    at == base_at + Seq::new(k, |j: int| i as int),
                    forall|q: int| 0 <= q < at.len() ==> #[trigger] out@[fixed + q]@[at[q]] == (base + sh.take(k as int))[q],
                decreases shrinks@.len(),
            {
                let s = shrinks.remove(0);
                proof {
                    assert(s == sh[k as int]);
                    assert(shrinks@ == sh.skip(k + 1 as int));
                }
                let mut v = self.clone();
                v.set(i, s);
                proof {
                    assert(clones_except(self@, v@, i as int));
                }
                let ghost before = out@;
                let ghost at0 = at;
                out.push(v);
                proof {
                    at = at.push(i as int);
                    assert(at == base_at + Seq::new(k + 1 as nat, |j: int| i as int));
                    assert forall|q: int| 0 <= q < at.len() implies clones_except(self@, #[trigger] out@[fixed + q]@, at[q]) by {
                        if q < at.len() - 1 {
                            assert(out@[fixed + q] == before[fixed + q]);
                        }
                    }
                    assert forall|q: int| 0 <= q < at.len() implies #[trigger] out@[fixed + q]@[at[q]] == (base + sh.take(k + 1 as int))[q] by {
                        if q < at.len() - 1 {
                            assert(out@[fixed + q] == before[fixed + q]);
                            assert(at[q] == at0[q]);
                            assert((base + sh.take(k + 1 as int))[q] == (base + sh.take(k as int))[q]);
                        } else {
                            assert((base + sh.take(k + 1 as int))[q] == s);
                        }
                    }
                    k = k + 1;
                }
            }
            proof {
                assert(sh.take(k as int) == sh);
                lemma_owners_push(parts, sh);
                parts.lemma_flatten_push(sh);
                parts = parts.push(sh);
                assert(at == owners(parts));
                assert forall|j: int| 0 <= j < i + 1 implies #[trigger] self@[j].shrinks_to(parts[j]) by {
                    if j < i {
                        assert(parts[j] == parts.drop_last()[j]);
                    }
                }
            }
            i = i + 1;
        }
        proof {
            assert(seq_shrink_layout(self@, out@, at));
            assert(out@.len() - at.len() == fixed);
            assert(elements_shrunk(self@, out@, at, parts));
        }
        out
    }
}


impl<A: Arbitrary + Clone, B: Arbitrary + Clone> Arbitrary for (A, B) {
    open spec fn shrinks_to(&self, r: Seq<(A, B)>) -> bool {
        exists|s0: Seq<A>, s1: Seq<B>|
            {
                &&& self.0.shrinks_to(s0)
                &&& self.1.shrinks_to(s1)
                &&& r.len() == s0.len() + s1.len()
                &&& forall|k: int| 0 <= k < s0.len() ==> (#[trigger] r[0 + k]).0 == s0[k] && cloned(self.1, r[0 + k].1)
                &&& forall|k: int| 0 <= k < s1.len() ==> (#[trigger] r[s0.len() + k]).1 == s1[k] && cloned(self.0, r[s0.len() + k].0)
            }
    }

    /// Each component generated in order.
    /// The components generated in turn, each starting where the one
    /// before left the generator.
    open spec fn arbitrary_from(before: Stream, after: Stream, size: usize, v: (A, B)) -> bool {
        exists|m1: Stream|
            #![trigger A::arbitrary_from(before, m1, size, v.0), B::arbitrary_from(m1, after, size, v.1)]
            A::arbitrary_from(before, m1, size, v.0)
            && B::arbitrary_from(m1, after, size, v.1)
    }

    fn arbitrary<R: Rng>(rng: &mut R, size: usize) -> (r: (A, B)) {
        let ghost s0 = *rng;
        let v0 = A::arbitrary(rng, size);
        let ghost s1 = *rng;
        let v1 = B::arbitrary(rng, size);
        let ghost s2 = *rng;
        let r = (v0, v1);
        assert(A::arbitrary_from(outputs(s0), outputs(s1), size, r.0) && B::arbitrary_from(outputs(s1), outputs(s2), size, r.1));
        r
    }

    /// Each component's candidates in turn, the other components cloned.
    fn shrink(&self) -> (r: Vec<(A, B)>) {
        let mut out: Vec<(A, B)> = Vec::new();
        let mut c0 = self.0.shrink();
        let ghost g0 = c0@;
        assert(g0.len() == c0.len());
        let mut k0: usize = 0;
        while c0.len() > 0
            invariant
                k0 <= g0.len(),
                g0.len() <= usize::MAX,
                c0@ == g0.skip(k0 as int),
                out@.len() == 0 + k0,
                forall|q: int| 0 <= q < k0 ==> (#[trigger] out@[0 + q]).0 == g0[q] && cloned(self.1, out@[0 + q].1),
            decreases c0@.len(),
        {
            let c = c0.remove(0);
            assert(c == g0[k0 as int]);
            assert(c0@ == g0.skip(k0 + 1));
            let ghost before = out@;
            out.push((c, self.1.clone()));
            assert forall|q: int| 0 <= q < k0 + 1 implies (#[trigger] out@[0 + q]).0 == g0[q] && cloned(self.1, out@[0 + q].1) by {
                if q < k0 {
                    assert(out@[0 + q] == before[0 + q]);
                }
            }
            k0 = k0 + 1;
        }
        let mut c1 = self.1.shrink();
        let ghost g1 = c1@;
        assert(g1.len() == c1.len());
        let mut k1: usize = 0;
        while c1.len() > 0
            invariant
                k1 <= g1.len(),
                g1.len() <= usize::MAX,
                g0.len() <= usize::MAX,
                c1@ == g1.skip(k1 as int),
                out@.len() == g0.len() + k1,
                forall|q: int| 0 <= q < g0.len() ==> (#[trigger] out@[0 + q]).0 == g0[q] && cloned(self.1, out@[0 + q].1),
                forall|q: int| 0 <= q < k1 ==> (#[trigger] out@[g0.len() + q]).1 == g1[q] && cloned(self.0, out@[g0.len() + q].0),
            decreases c1@.len(),
        {
            let c = c1.remove(0);
            assert(c == g1[k1 as int]);
            assert(c1@ == g1.skip(k1 + 1));
            let ghost before = out@;
            out.push((self.0.clone(), c));
            assert forall|q: int| 0 <= q < g0.len() implies (#[trigger] out@[0 + q]).0 == g0[q] && cloned(self.1, out@[0 + q].1) by {
                assert(out@[0 + q] == before[0 + q]);
            }
            assert forall|q: int| 0 <= q < k1 + 1 implies (#[trigger] out@[g0.len() + q]).1 == g1[q] && cloned(self.0, out@[g0.len() + q].0) by {
                if q < k1 {
                    assert(out@[g0.len() + q] == before[g0.len() + q]);
                }
            }
            k1 = k1 + 1;
        }
        proof {
            assert(self.0.shrinks_to(g0));
            assert(self.1.shrinks_to(g1));
        }
        out
    }
}

impl<A: Arbitrary + Clone, B: Arbitrary + Clone, C: Arbitrary + Clone> Arbitrary for (A, B, C) {
    open spec fn shrinks_to(&self, r: Seq<(A, B, C)>) -> bool {
        exists|s0: Seq<A>, s1: Seq<B>, s2: Seq<C>|
            {
                &&& self.0.shrinks_to(s0)
                &&& self.1.shrinks_to(s1)
                &&& self.2.shrinks_to(s2)
                &&& r.len() == s0.len() + s1.len() + s2.len()
                &&& forall|k: int| 0 <= k < s0.len() ==> (#[trigger] r[0 + k]).0 == s0[k] && cloned(self.1, r[0 + k].1) && cloned(self.2, r[0 + k].2)
                &&& forall|k: int| 0 <= k < s1.len() ==> (#[trigger] r[s0.len() + k]).1 == s1[k] && cloned(self.0, r[s0.len() + k].0) && cloned(self.2, r[s0.len() + k].2)
                &&& forall|k: int| 0 <= k < s2.len() ==> (#[trigger] r[s0.len() + s1.len() + k]).2 == s2[k] && cloned(self.0, r[s0.len() + s1.len() + k].0) && cloned(self.1, r[s0.len() + s1.len() + k].1)
            }
    }

    /// Each component generated in order.
    /// The components generated in turn, each starting where the one
    /// before left the generator.
    open spec fn arbitrary_from(before: Stream, after: Stream, size: usize, v: (A, B, C)) -> bool {
        exists|m1: Stream, m2: Stream|
            #![trigger A::arbitrary_from(before, m1, size, v.0), B::arbitrary_from(m1, m2, size, v.1), C::arbitrary_from(m2, after, size, v.2)]
            A::arbitrary_from(before, m1, size, v.0)
            && B::arbitrary_from(m1, m2, size, v.1)
            && C::arbitrary_from(m2, after, size, v.2)
    }

    fn arbitrary<R: Rng>(rng: &mut R, size: usize) -> (r: (A, B, C)) {
        let ghost s0 = *rng;
        let v0 = A::arbitrary(rng, size);
        let ghost s1 = *rng;
        let v1 = B::arbitrary(rng, size);
        let ghost s2 = *rng;
        let v2 = C::arbitrary(rng, size);
        let ghost s3 = *rng;
        let r = (v0, v1, v2);
        assert(A::arbitrary_from(outputs(s0), outputs(s1), size, r.0) && B::arbitrary_from(outputs(s1), outputs(s2), size, r.1) && C::arbitrary_from(outputs(s2), outputs(s3), size, r.2));
        r
    }

    /// Each component's candidates in turn, the other components cloned.
    fn shrink(&self) -> (r: Vec<(A, B, C)>) {
        let mut out: Vec<(A, B, C)> = Vec::new();
        let mut c0 = self.0.shrink();
        let ghost g0 = c0@;
        assert(g0.len() == c0.len());
        let mut k0: usize = 0;
        while c0.len() > 0
            invariant
                k0 <= g0.len(),
                g0.len() <= usize::MAX,
                c0@ == g0.skip(k0 as int),
                out@.len() == 0 + k0,
                forall|q: int| 0 <= q < k0 ==> (#[trigger] out@[0 + q]).0 == g0[q] && cloned(self.1, out@[0 + q].1) && cloned(self.2, out@[0 + q].2),
            decreases c0@.len(),
        {
            let c = c0.remove(0);
            assert(c == g0[k0 as int]);
            assert(c0@ == g0.skip(k0 + 1));
            let ghost before = out@;
            out.push((c, self.1.clone(), self.2.clone()));
            assert forall|q: int| 0 <= q < k0 + 1 implies (#[trigger] out@[0 + q]).0 == g0[q] && cloned(self.1, out@[0 + q].1) && cloned(self.2, out@[0 + q].2) by {
                if q < k0 {
                    assert(out@[0 + q] == before[0 + q]);
                }
            }
            k0 = k0 + 1;
        }
        let mut c1 = self.1.shrink();
        let ghost g1 = c1@;
        assert(g1.len() == c1.len());
        let mut k1: usize = 0;
        while c1.len() > 0
            invariant
                k1 <= g1.len(),
                g1.len() <= usize::MAX,
                g0.len() <= usize::MAX,
                c1@ == g1.skip(k1 as int),
                out@.len() == g0.len() + k1,
                forall|q: int| 0 <= q < g0.len() ==> (#[trigger] out@[0 + q]).0 == g0[q] && cloned(self.1, out@[0 + q].1) && cloned(self.2, out@[0 + q].2),
                forall|q: int| 0 <= q < k1 ==> (#[trigger] out@[g0.len() + q]).1 == g1[q] && cloned(self.0, out@[g0.len() + q].0) && cloned(self.2, out@[g0.len() + q].2),
            decreases c1@.len(),
        {
            let c = c1.remove(0);
            assert(c == g1[k1 as int]);
            assert(c1@ == g1.skip(k1 + 1));
            let ghost before = out@;
            out.push((self.0.clone(), c, self.2.clone()));
            assert forall|q: int| 0 <= q < g0.len() implies (#[trigger] out@[0 + q]).0 == g0[q] && cloned(self.1, out@[0 + q].1) && cloned(self.2, out@[0 + q].2) by {
                assert(out@[0 + q] == before[0 + q]);
            }
            assert forall|q: int| 0 <= q < k1 + 1 implies (#[trigger] out@[g0.len() + q]).1 == g1[q] && cloned(self.0, out@[g0.len() + q].0) && cloned(self.2, out@[g0.len() + q].2) by {
                if q < k1 {
                    assert(out@[g0.len() + q] == before[g0.len() + q]);
                }
            }
            k1 = k1 + 1;
        }
        let mut c2 = self.2.shrink();
        let ghost g2 = c2@;
        assert(g2.len() == c2.len());
        let mut k2: usize = 0;
        while c2.len() > 0
            invariant
                k2 <= g2.len(),
                g2.len() <= usize::MAX,
                g0.len() <= usize::MAX,
                g1.len() <= usize::MAX,
                c2@ == g2.skip(k2 as int),
                out@.len() == g0.len() + g1.len() + k2,
                forall|q: int| 0 <= q < g0.len() ==> (#[trigger] out@[0 + q]).0 == g0[q] && cloned(self.1, out@[0 + q].1) && cloned(self.2, out@[0 + q].2),
                forall|q: int| 0 <= q < g1.len() ==> (#[trigger] out@[g0.len() + q]).1 == g1[q] && cloned(self.0, out@[g0.len() + q].0) && cloned(self.2, out@[g0.len() + q].2),
                forall|q: int| 0 <= q < k2 ==> (#[trigger] out@[g0.len() + g1.len() + q]).2 == g2[q] && cloned(self.0, out@[g0.len() + g1.len() + q].0) && cloned(self.1, out@[g0.len() + g1.len() + q].1),
            decreases c2@.len(),
        {
            let c = c2.remove(0);
            assert(c == g2[k2 as int]);
            assert(c2@ == g2.skip(k2 + 1));
            let ghost before = out@;
            out.push((self.0.clone(), self.1.clone(), c));
            assert forall|q: int| 0 <= q < g0.len() implies (#[trigger] out@[0 + q]).0 == g0[q] && cloned(self.1, out@[0 + q].1) && cloned(self.2, out@[0 + q].2) by {
                assert(out@[0 + q] == before[0 + q]);
            }
            assert forall|q: int| 0 <= q < g1.len() implies (#[trigger] out@[g0.len() + q]).1 == g1[q] && cloned(self.0, out@[g0.len() + q].0) && cloned(self.2, out@[g0.len() + q].2) by {
                assert(out@[g0.len() + q] == before[g0.len() + q]);
            }
            assert forall|q: int| 0 <= q < k2 + 1 implies (#[trigger] out@[g0.len() + g1.len() + q]).2 == g2[q] && cloned(self.0, out@[g0.len() + g1.len() + q].0) && cloned(self.1, out@[g0.len() + g1.len() + q].1) by {
                if q < k2 {
                    assert(out@[g0.len() + g1.len() + q] == before[g0.len() + g1.len() + q]);
                }
            }
            k2 = k2 + 1;
        }
        proof {
            assert(self.0.shrinks_to(g0));
            assert(self.1.shrinks_to(g1));
            assert(self.2.shrinks_to(g2));
        }
        out
    }
}

impl<A: Arbitrary + Clone, B: Arbitrary + Clone, C: Arbitrary + Clone, D: Arbitrary + Clone> Arbitrary for (A, B, C, D) {
    open spec fn shrinks_to(&self, r: Seq<(A, B, C, D)>) -> bool {
        exists|s0: Seq<A>, s1: Seq<B>, s2: Seq<C>, s3: Seq<D>|
            {
                &&& self.0.shrinks_to(s0)
                &&& self.1.shrinks_to(s1)
                &&& self.2.shrinks_to(s2)
                &&& self.3.shrinks_to(s3)
                &&& r.len() == s0.len() + s1.len() + s2.len() + s3.len()
                &&& forall|k: int| 0 <= k < s0.len() ==> (#[trigger] r[0 + k]).0 == s0[k] && cloned(self.1, r[0 + k].1) && cloned(self.2, r[0 + k].2) && cloned(self.3, r[0 + k].3)
                &&& forall|k: int| 0 <= k < s1.len() ==> (#[trigger] r[s0.len() + k]).1 == s1[k] && cloned(self.0, r[s0.len() + k].0) && cloned(self.2, r[s0.len() + k].2) && cloned(self.3, r[s0.len() + k].3)
                &&& forall|k: int| 0 <= k < s2.len() ==> (#[trigger] r[s0.len() + s1.len() + k]).2 == s2[k] && cloned(self.0, r[s0.len() + s1.len() + k].0) && cloned(self.1, r[s0.len() + s1.len() + k].1) && cloned(self.3, r[s0.len() + s1.len() + k].3)
                &&& forall|k: int| 0 <= k < s3.len() ==> (#[trigger] r[s0.len() + s1.len() + s2.len() + k]).3 == s3[k] && cloned(self.0, r[s0.len() + s1.len() + s2.len() + k].0) && cloned(self.1, r[s0.len() + s1.len() + s2.len() + k].1) && cloned(self.2, r[s0.len() + s1.len() + s2.len() + k].2)
            }
    }

    /// Each component generated in order.
    /// The components generated in turn, each starting where the one
    /// before left the generator.
    open spec fn arbitrary_from(before: Stream, after: Stream, size: usize, v: (A, B, C, D)) -> bool {
        exists|m1: Stream, m2: Stream, m3: Stream|
            #![trigger A::arbitrary_from(before, m1, size, v.0), B::arbitrary_from(m1, m2, size, v.1), C::arbitrary_from(m2, m3, size, v.2), D::arbitrary_from(m3, after, size, v.3)]
            A::arbitrary_from(before, m1, size, v.0)
            && B::arbitrary_from(m1, m2, size, v.1)
            && C::arbitrary_from(m2, m3, size, v.2)
            && D::arbitrary_from(m3, after, size, v.3)
    }

    fn arbitrary<R: Rng>(rng: &mut R, size: usize) -> (r: (A, B, C, D)) {
        let ghost s0 = *rng;
        let v0 = A::arbitrary(rng, size);
        let ghost s1 = *rng;
        let v1 = B::arbitrary(rng, size);
        let ghost s2 = *rng;
        let v2 = C::arbitrary(rng, size);
        let ghost s3 = *rng;
        let v3 = D::arbitrary(rng, size);
        let ghost s4 = *rng;
        let r = (v0, v1, v2, v3);
        assert(A::arbitrary_from(outputs(s0), outputs(s1), size, r.0) && B::arbitrary_from(outputs(s1), outputs(s2), size, r.1) && C::arbitrary_from(outputs(s2), outputs(s3), size, r.2) && D::arbitrary_from(outputs(s3), outputs(s4), size, r.3));
        r
    }

    /// Each component's candidates in turn, the other components cloned.
    fn shrink(&self) -> (r: Vec<(A, B, C, D)>) {
        let mut out: Vec<(A, B, C, D)> = Vec::new();
        let mut c0 = self.0.shrink();
        let ghost g0 = c0@;
        assert(g0.len() == c0.len());
        let mut k0: usize = 0;
        while c0.len() > 0
            invariant
                k0 <= g0.len(),
                g0.len() <= usize::MAX,
                c0@ == g0.skip(k0 as int),
                out@.len() == 0 + k0,
                forall|q: int| 0 <= q < k0 ==> (#[trigger] out@[0 + q]).0 == g0[q] && cloned(self.1, out@[0 + q].1) && cloned(self.2, out@[0 + q].2) && cloned(self.3, out@[0 + q].3),
            decreases c0@.len(),
        {
            let c = c0.remove(0);
            assert(c == g0[k0 as int]);
            assert(c0@ == g0.skip(k0 + 1));
            let ghost before = out@;
            out.push((c, self.1.clone(), self.2.clone(), self.3.clone()));
            assert forall|q: int| 0 <= q < k0 + 1 implies (#[trigger] out@[0 + q]).0 == g0[q] && cloned(self.1, out@[0 + q].1) && cloned(self.2, out@[0 + q].2) && cloned(self.3, out@[0 + q].3) by {
                if q < k0 {
                    assert(out@[0 + q] == before[0 + q]);
                }
            }
            k0 = k0 + 1;
        }
        let mut c1 = self.1.shrink();
        let ghost g1 = c1@;
        assert(g1.len() == c1.len());
        let mut k1: usize = 0;
        while c1.len() > 0
            invariant
                k1 <= g1.len(),
                g1.len() <= usize::MAX,
                g0.len() <= usize::MAX,
                c1@ == g1.skip(k1 as int),
                out@.len() == g0.len() + k1,
                forall|q: int| 0 <= q < g0.len() ==> (#[trigger] out@[0 + q]).0 == g0[q] && cloned(self.1, out@[0 + q].1) && cloned(self.2, out@[0 + q].2) && cloned(self.3, out@[0 + q].3),
                forall|q: int| 0 <= q < k1 ==> (#[trigger] out@[g0.len() + q]).1 == g1[q] && cloned(self.0, out@[g0.len() + q].0) && cloned(self.2, out@[g0.len() + q].2) && cloned(self.3, out@[g0.len() + q].3),
            decreases c1@.len(),
        {
            let c = c1.remove(0);
            assert(c == g1[k1 as int]);
            assert(c1@ == g1.skip(k1 + 1));
            let ghost before = out@;
            out.push((self.0.clone(), c, self.2.clone(), self.3.clone()));
            assert forall|q: int| 0 <= q < g0.len() implies (#[trigger] out@[0 + q]).0 == g0[q] && cloned(self.1, out@[0 + q].1) && cloned(self.2, out@[0 + q].2) && cloned(self.3, out@[0 + q].3) by {
                assert(out@[0 + q] == before[0 + q]);
            }
            assert forall|q: int| 0 <= q < k1 + 1 implies (#[trigger] out@[g0.len() + q]).1 == g1[q] && cloned(self.0, out@[g0.len() + q].0) && cloned(self.2, out@[g0.len() + q].2) && cloned(self.3, out@[g0.len() + q].3) by {
                if q < k1 {
                    assert(out@[g0.len() + q] == before[g0.len() + q]);
                }
            }
            k1 = k1 + 1;
        }
        let mut c2 = self.2.shrink();
        let ghost g2 = c2@;
        assert(g2.len() == c2.len());
        let mut k2: usize = 0;
        while c2.len() > 0
            invariant
                k2 <= g2.len(),
                g2.len() <= usize::MAX,
                g0.len() <= usize::MAX,
                g1.len() <= usize::MAX,
                c2@ == g2.skip(k2 as int),
                out@.len() == g0.len() + g1.len() + k2,
                forall|q: int| 0 <= q < g0.len() ==> (#[trigger] out@[0 + q]).0 == g0[q] && cloned(self.1, out@[0 + q].1) && cloned(self.2, out@[0 + q].2) && cloned(self.3, out@[0 + q].3),
                forall|q: int| 0 <= q < g1.len() ==> (#[trigger] out@[g0.len() + q]).1 == g1[q] && cloned(self.0, out@[g0.len() + q].0) && cloned(self.2, out@[g0.len() + q].2) && cloned(self.3, out@[g0.len() + q].3),
                forall|q: int| 0 <= q < k2 ==> (#[trigger] out@[g0.len() + g1.len() + q]).2 == g2[q] && cloned(self.0, out@[g0.len() + g1.len() + q].0) && cloned(self.1, out@[g0.len() + g1.len() + q].1) && cloned(self.3, out@[g0.len() + g1.len() + q].3),
            decreases c2@.len(),
        {
            let c = c2.remove(0);
            assert(c == g2[k2 as int]);
            assert(c2@ == g2.skip(k2 + 1));
            let ghost before = out@;
            out.push((self.0.clone(), self.1.clone(), c, self.3.clone()));
            assert forall|q: int| 0 <= q < g0.len() implies (#[trigger] out@[0 + q]).0 == g0[q] && cloned(self.1, out@[0 + q].1) && cloned(self.2, out@[0 + q].2) && cloned(self.3, out@[0 + q].3) by {
                assert(out@[0 + q] == before[0 + q]);
            }
            assert forall|q: int| 0 <= q < g1.len() implies (#[trigger] out@[g0.len() + q]).1 == g1[q] && cloned(self.0, out@[g0.len() + q].0) && cloned(self.2, out@[g0.len() + q].2) && cloned(self.3, out@[g0.len() + q].3) by {
                assert(out@[g0.len() + q] == before[g0.len() + q]);
            }
            assert forall|q: int| 0 <= q < k2 + 1 implies (#[trigger] out@[g0.len() + g1.len() + q]).2 == g2[q] && cloned(self.0, out@[g0.len() + g1.len() + q].0) && cloned(self.1, out@[g0.len() + g1.len() + q].1) && cloned(self.3, out@[g0.len() + g1.len() + q].3) by {
                if q < k2 {
                    assert(out@[g0.len() + g1.len() + q] == before[g0.len() + g1.len() + q]);
                }
            }
            k2 = k2 + 1;
        }
        let mut c3 = self.3.shrink();
        let ghost g3 = c3@;
        assert(g3.len() == c3.len());
        let mut k3: usize = 0;
        while c3.len() > 0
            invariant
                k3 <= g3.len(),
                g3.len() <= usize::MAX,
                g0.len() <= usize::MAX,
                g1.len() <= usize::MAX,
                g2.len() <= usize::MAX,
                c3@ == g3.skip(k3 as int),
                out@.len() == g0.len() + g1.len() + g2.len() + k3,
                forall|q: int| 0 <= q < g0.len() ==> (#[trigger] out@[0 + q]).0 == g0[q] && cloned(self.1, out@[0 + q].1) && cloned(self.2, out@[0 + q].2) && cloned(self.3, out@[0 + q].3),
                forall|q: int| 0 <= q < g1.len() ==> (#[trigger] out@[g0.len() + q]).1 == g1[q] && cloned(self.0, out@[g0.len() + q].0) && cloned(self.2, out@[g0.len() + q].2) && cloned(self.3, out@[g0.len() + q].3),
                forall|q: int| 0 <= q < g2.len() ==> (#[trigger] out@[g0.len() + g1.len() + q]).2 == g2[q] && cloned(self.0, out@[g0.len() + g1.len() + q].0) && cloned(self.1, out@[g0.len() + g1.len() + q].1) && cloned(self.3, out@[g0.len() + g1.len() + q].3),
                forall|q: int| 0 <= q < k3 ==> (#[trigger] out@[g0.len() + g1.len() + g2.len() + q]).3 == g3[q] && cloned(self.0, out@[g0.len() + g1.len() + g2.len() + q].0) && cloned(self.1, out@[g0.len() + g1.len() + g2.len() + q].1) && cloned(self.2, out@[g0.len() + g1.len() + g2.len() + q].2),
            decreases c3@.len(),
        {
            let c = c3.remove(0);
            assert(c == g3[k3 as int]);
            assert(c3@ == g3.skip(k3 + 1));
            let ghost before = out@;
            out.push((self.0.clone(), self.1.clone(), self.2.clone(), c));
            assert forall|q: int| 0 <= q < g0.len() implies (#[trigger] out@[0 + q]).0 == g0[q] && cloned(self.1, out@[0 + q].1) && cloned(self.2, out@[0 + q].2) && cloned(self.3, out@[0 + q].3) by {
                assert(out@[0 + q] == before[0 + q]);
            }
            assert forall|q: int| 0 <= q < g1.len() implies (#[trigger] out@[g0.len() + q]).1 == g1[q] && cloned(self.0, out@[g0.len() + q].0) && cloned(self.2, out@[g0.len() + q].2) && cloned(self.3, out@[g0.len() + q].3) by {
                assert(out@[g0.len() + q] == before[g0.len() + q]);
            }
            assert forall|q: int| 0 <= q < g2.len() implies (#[trigger] out@[g0.len() + g1.len() + q]).2 == g2[q] && cloned(self.0, out@[g0.len() + g1.len() + q].0) && cloned(self.1, out@[g0.len() + g1.len() + q].1) && cloned(self.3, out@[g0.len() + g1.len() + q].3) by {
                assert(out@[g0.len() + g1.len() + q] == before[g0.len() + g1.len() + q]);
            }
            assert forall|q: int| 0 <= q < k3 + 1 implies (#[trigger] out@[g0.len() + g1.len() + g2.len() + q]).3 == g3[q] && cloned(self.0, out@[g0.len() + g1.len() + g2.len() + q].0) && cloned(self.1, out@[g0.len() + g1.len() + g2.len() + q].1) && cloned(self.2, out@[g0.len() + g1.len() + g2.len() + q].2) by {
                if q < k3 {
                    assert(out@[g0.len() + g1.len() + g2.len() + q] == before[g0.len() + g1.len() + g2.len() + q]);
                }
            }
            k3 = k3 + 1;
        }
        proof {
            assert(self.0.shrinks_to(g0));
            assert(self.1.shrinks_to(g1));
            assert(self.2.shrinks_to(g2));
            assert(self.3.shrinks_to(g3));
        }
        out
    }
}

impl<A: Arbitrary + Clone, B: Arbitrary + Clone, C: Arbitrary + Clone, D: Arbitrary + Clone, E: Arbitrary + Clone> Arbitrary for (A, B, C, D, E) {
    open spec fn shrinks_to(&self, r: Seq<(A, B, C, D, E)>) -> bool {
        exists|s0: Seq<A>, s1: Seq<B>, s2: Seq<C>, s3: Seq<D>, s4: Seq<E>|
            {
                &&& self.0.shrinks_to(s0)
                &&& self.1.shrinks_to(s1)
                &&& self.2.shrinks_to(s2)
                &&& self.3.shrinks_to(s3)
                &&& self.4.shrinks_to(s4)
                &&& r.len() == s0.len() + s1.len() + s2.len() + s3.len() + s4.len()
                &&& forall|k: int| 0 <= k < s0.len() ==> (#[trigger] r[0 + k]).0 == s0[k] && cloned(self.1, r[0 + k].1) && cloned(self.2, r[0 + k].2) && cloned(self.3, r[0 + k].3) && cloned(self.4, r[0 + k].4)
                &&& forall|k: int| 0 <= k < s1.len() ==> (#[trigger] r[s0.len() + k]).1 == s1[k] && cloned(self.0, r[s0.len() + k].0) && cloned(self.2, r[s0.len() + k].2) && cloned(self.3, r[s0.len() + k].3) && cloned(self.4, r[s0.len() + k].4)
                &&& forall|k: int| 0 <= k < s2.len() ==> (#[trigger] r[s0.len() + s1.len() + k]).2 == s2[k] && cloned(self.0, r[s0.len() + s1.len() + k].0) && cloned(self.1, r[s0.len() + s1.len() + k].1) && cloned(self.3, r[s0.len() + s1.len() + k].3) && cloned(self.4, r[s0.len() + s1.len() + k].4)
                &&& forall|k: int| 0 <= k < s3.len() ==> (#[trigger] r[s0.len() + s1.len() + s2.len() + k]).3 == s3[k] && cloned(self.0, r[s0.len() + s1.len() + s2.len() + k].0) && cloned(self.1, r[s0.len() + s1.len() + s2.len() + k].1) && cloned(self.2, r[s0.len() + s1.len() + s2.len() + k].2) && cloned(self.4, r[s0.len() + s1.len() + s2.len() + k].4)
                &&& forall|k: int| 0 <= k < s4.len() ==> (#[trigger] r[s0.len() + s1.len() + s2.len() + s3.len() + k]).4 == s4[k] && cloned(self.0, r[s0.len() + s1.len() + s2.len() + s3.len() + k].0) && cloned(self.1, r[s0.len() + s1.len() + s2.len() + s3.len() + k].1) && cloned(self.2, r[s0.len() + s1.len() + s2.len() + s3.len() + k].2) && cloned(self.3, r[s0.len() + s1.len() + s2.len() + s3.len() + k].3)
            }
    }

    /// Each component generated in order.
    /// The components generated in turn, each starting where the one
    /// before left the generator.
    open spec fn arbitrary_from(before: Stream, after: Stream, size: usize, v: (A, B, C, D, E)) -> bool {
        exists|m1: Stream, m2: Stream, m3: Stream, m4: Stream|
            #![trigger A::arbitrary_from(before, m1, size, v.0), B::arbitrary_from(m1, m2, size, v.1), C::arbitrary_from(m2, m3, size, v.2), D::arbitrary_from(m3, m4, size, v.3), E::arbitrary_from(m4, after, size, v.4)]
            A::arbitrary_from(before, m1, size, v.0)
            && B::arbitrary_from(m1, m2, size, v.1)
            && C::arbitrary_from(m2, m3, size, v.2)
            && D::arbitrary_from(m3, m4, size, v.3)
            && E::arbitrary_from(m4, after, size, v.4)
    }

    fn arbitrary<R: Rng>(rng: &mut R, size: usize) -> (r: (A, B, C, D, E)) {
        let ghost s0 = *rng;
        let v0 = A::arbitrary(rng, size);
        let ghost s1 = *rng;
        let v1 = B::arbitrary(rng, size);
        let ghost s2 = *rng;
        let v2 = C::arbitrary(rng, size);
        let ghost s3 = *rng;
        let v3 = D::arbitrary(rng, size);
        let ghost s4 = *rng;
        let v4 = E::arbitrary(rng, size);
        let ghost s5 = *rng;
        let r = (v0, v1, v2, v3, v4);
        assert(A::arbitrary_from(outputs(s0), outputs(s1), size, r.0) && B::arbitrary_from(outputs(s1), outputs(s2), size, r.1) && C::arbitrary_from(outputs(s2), outputs(s3), size, r.2) && D::arbitrary_from(outputs(s3), outputs(s4), size, r.3) && E::arbitrary_from(outputs(s4), outputs(s5), size, r.4));
        r
    }

    /// Each component's candidates in turn, the other components cloned.
    fn shrink(&self) -> (r: Vec<(A, B, C, D, E)>) {
        let mut out: Vec<(A, B, C, D, E)> = Vec::new();
        let mut c0 = self.0.shrink();
        let ghost g0 = c0@;
        assert(g0.len() == c0.len());
        let mut k0: usize = 0;
        while c0.len() > 0
            invariant
                k0 <= g0.len(),
                g0.len() <= usize::MAX,
                c0@ == g0.skip(k0 as int),
                out@.len() == 0 + k0,
                forall|q: int| 0 <= q < k0 ==> (#[trigger] out@[0 + q]).0 == g0[q] && cloned(self.1, out@[0 + q].1) && cloned(self.2, out@[0 + q].2) && cloned(self.3, out@[0 + q].3) && cloned(self.4, out@[0 + q].4),
            decreases c0@.len(),
        {
            let c = c0.remove(0);
            assert(c == g0[k0 as int]);
            assert(c0@ == g0.skip(k0 + 1));
            let ghost before = out@;
            out.push((c, self.1.clone(), self.2.clone(), self.3.clone(), self.4.clone()));
            assert forall|q: int| 0 <= q < k0 + 1 implies (#[trigger] out@[0 + q]).0 == g0[q] && cloned(self.1, out@[0 + q].1) && cloned(self.2, out@[0 + q].2) && cloned(self.3, out@[0 + q].3) && cloned(self.4, out@[0 + q].4) by {
                if q < k0 {
                    assert(out@[0 + q] == before[0 + q]);
                }
            }
            k0 = k0 + 1;
        }
        let mut c1 = self.1.shrink();
        let ghost g1 = c1@;
        assert(g1.len() == c1.len());
        let mut k1: usize = 0;
        while c1.len() > 0
            invariant
                k1 <= g1.len(),
                g1.len() <= usize::MAX,
                g0.len() <= usize::MAX,
                c1@ == g1.skip(k1 as int),
                out@.len() == g0.len() + k1,
                forall|q: int| 0 <= q < g0.len() ==> (#[trigger] out@[0 + q]).0 == g0[q] && cloned(self.1, out@[0 + q].1) && cloned(self.2, out@[0 + q].2) && cloned(self.3, out@[0 + q].3) && cloned(self.4, out@[0 + q].4),
                forall|q: int| 0 <= q < k1 ==> (#[trigger] out@[g0.len() + q]).1 == g1[q] && cloned(self.0, out@[g0.len() + q].0) && cloned(self.2, out@[g0.len() + q].2) && cloned(self.3, out@[g0.len() + q].3) && cloned(self.4, out@[g0.len() + q].4),
            decreases c1@.len(),
        {
            let c = c1.remove(0);
            assert(c == g1[k1 as int]);
            assert(c1@ == g1.skip(k1 + 1));
            let ghost before = out@;
            out.push((self.0.clone(), c, self.2.clone(), self.3.clone(), self.4.clone()));
            assert forall|q: int| 0 <= q < g0.len() implies (#[trigger] out@[0 + q]).0 == g0[q] && cloned(self.1, out@[0 + q].1) && cloned(self.2, out@[0 + q].2) && cloned(self.3, out@[0 + q].3) && cloned(self.4, out@[0 + q].4) by {
                assert(out@[0 + q] == before[0 + q]);
            }
            assert forall|q: int| 0 <= q < k1 + 1 implies (#[trigger] out@[g0.len() + q]).1 == g1[q] && cloned(self.0, out@[g0.len() + q].0) && cloned(self.2, out@[g0.len() + q].2) && cloned(self.3, out@[g0.len() + q].3) && cloned(self.4, out@[g0.len() + q].4) by {
                if q < k1 {
                    assert(out@[g0.len() + q] == before[g0.len() + q]);
                }
            }
            k1 = k1 + 1;
        }
        let mut c2 = self.2.shrink();
        let ghost g2 = c2@;
        assert(g2.len() == c2.len());
        let mut k2: usize = 0;
        while c2.len() > 0
            invariant
                k2 <= g2.len(),
                g2.len() <= usize::MAX,
                g0.len() <= usize::MAX,
                g1.len() <= usize::MAX,
                c2@ == g2.skip(k2 as int),
                out@.len() == g0.len() + g1.len() + k2,
                forall|q: int| 0 <= q < g0.len() ==> (#[trigger] out@[0 + q]).0 == g0[q] && cloned(self.1, out@[0 + q].1) && cloned(self.2, out@[0 + q].2) && cloned(self.3, out@[0 + q].3) && cloned(self.4, out@[0 + q].4),
                forall|q: int| 0 <= q < g1.len() ==> (#[trigger] out@[g0.len() + q]).1 == g1[q] && cloned(self.0, out@[g0.len() + q].0) && cloned(self.2, out@[g0.len() + q].2) && cloned(self.3, out@[g0.len() + q].3) && cloned(self.4, out@[g0.len() + q].4),
                forall|q: int| 0 <= q < k2 ==> (#[trigger] out@[g0.len() + g1.len() + q]).2 == g2[q] && cloned(self.0, out@[g0.len() + g1.len() + q].0) && cloned(self.1, out@[g0.len() + g1.len() + q].1) && cloned(self.3, out@[g0.len() + g1.len() + q].3) && cloned(self.4, out@[g0.len() + g1.len() + q].4),
            decreases c2@.len(),
        {
            let c = c2.remove(0);
            assert(c == g2[k2 as int]);
            assert(c2@ == g2.skip(k2 + 1));
            let ghost before = out@;
            out.push((self.0.clone(), self.1.clone(), c, self.3.clone(), self.4.clone()));
            assert forall|q: int| 0 <= q < g0.len() implies (#[trigger] out@[0 + q]).0 == g0[q] && cloned(self.1, out@[0 + q].1) && cloned(self.2, out@[0 + q].2) && cloned(self.3, out@[0 + q].3) && cloned(self.4, out@[0 + q].4) by {
                assert(out@[0 + q] == before[0 + q]);
            }
            assert forall|q: int| 0 <= q < g1.len() implies (#[trigger] out@[g0.len() + q]).1 == g1[q] && cloned(self.0, out@[g0.len() + q].0) && cloned(self.2, out@[g0.len() + q].2) && cloned(self.3, out@[g0.len() + q].3) && cloned(self.4, out@[g0.len() + q].4) by {
                assert(out@[g0.len() + q] == before[g0.len() + q]);
            }
            assert forall|q: int| 0 <= q < k2 + 1 implies (#[trigger] out@[g0.len() + g1.len() + q]).2 == g2[q] && cloned(self.0, out@[g0.len() + g1.len() + q].0) && cloned(self.1, out@[g0.len() + g1.len() + q].1) && cloned(self.3, out@[g0.len() + g1.len() + q].3) && cloned(self.4, out@[g0.len() + g1.len() + q].4) by {
                if q < k2 {
                    assert(out@[g0.len() + g1.len() + q] == before[g0.len() + g1.len() + q]);
                }
            }
            k2 = k2 + 1;
        }
        let mut c3 = self.3.shrink();
        let ghost g3 = c3@;
        assert(g3.len() == c3.len());
        let mut k3: usize = 0;
        while c3.len() > 0
            invariant
                k3 <= g3.len(),
                g3.len() <= usize::MAX,
                g0.len() <= usize::MAX,
                g1.len() <= usize::MAX,
                g2.len() <= usize::MAX,
                c3@ == g3.skip(k3 as int),
                out@.len() == g0.len() + g1.len() + g2.len() + k3,
                forall|q: int| 0 <= q < g0.len() ==> (#[trigger] out@[0 + q]).0 == g0[q] && cloned(self.1, out@[0 + q].1) && cloned(self.2, out@[0 + q].2) && cloned(self.3, out@[0 + q].3) && cloned(self.4, out@[0 + q].4),
                forall|q: int| 0 <= q < g1.len() ==> (#[trigger] out@[g0.len() + q]).1 == g1[q] && cloned(self.0, out@[g0.len() + q].0) && cloned(self.2, out@[g0.len() + q].2) && cloned(self.3, out@[g0.len() + q].3) && cloned(self.4, out@[g0.len() + q].4),
                forall|q: int| 0 <= q < g2.len() ==> (#[trigger] out@[g0.len() + g1.len() + q]).2 == g2[q] && cloned(self.0, out@[g0.len() + g1.len() + q].0) && cloned(self.1, out@[g0.len() + g1.len() + q].1) && cloned(self.3, out@[g0.len() + g1.len() + q].3) && cloned(self.4, out@[g0.len() + g1.len() + q].4),
                forall|q: int| 0 <= q < k3 ==> (#[trigger] out@[g0.len() + g1.len() + g2.len() + q]).3 == g3[q] && cloned(self.0, out@[g0.len() + g1.len() + g2.len() + q].0) && cloned(self.1, out@[g0.len() + g1.len() + g2.len() + q].1) && cloned(self.2, out@[g0.len() + g1.len() + g2.len() + q].2) && cloned(self.4, out@[g0.len() + g1.len() + g2.len() + q].4),
            decreases c3@.len(),
        {
            let c = c3.remove(0);
            assert(c == g3[k3 as int]);
            assert(c3@ == g3.skip(k3 + 1));
            let ghost before = out@;
            out.push((self.0.clone(), self.1.clone(), self.2.clone(), c, self.4.clone()));
            assert forall|q: int| 0 <= q < g0.len() implies (#[trigger] out@[0 + q]).0 == g0[q] && cloned(self.1, out@[0 + q].1) && cloned(self.2, out@[0 + q].2) && cloned(self.3, out@[0 + q].3) && cloned(self.4, out@[0 + q].4) by {
                assert(out@[0 + q] == before[0 + q]);
            }
            assert forall|q: int| 0 <= q < g1.len() implies (#[trigger] out@[g0.len() + q]).1 == g1[q] && cloned(self.0, out@[g0.len() + q].0) && cloned(self.2, out@[g0.len() + q].2) && cloned(self.3, out@[g0.len() + q].3) && cloned(self.4, out@[g0.len() + q].4) by {
                assert(out@[g0.len() + q] == before[g0.len() + q]);
            }
            assert forall|q: int| 0 <= q < g2.len() implies (#[trigger] out@[g0.len() + g1.len() + q]).2 == g2[q] && cloned(self.0, out@[g0.len() + g1.len() + q].0) && cloned(self.1, out@[g0.len() + g1.len() + q].1) && cloned(self.3, out@[g0.len() + g1.len() + q].3) && cloned(self.4, out@[g0.len() + g1.len() + q].4) by {
                assert(out@[g0.len() + g1.len() + q] == before[g0.len() + g1.len() + q]);
            }
            assert forall|q: int| 0 <= q < k3 + 1 implies (#[trigger] out@[g0.len() + g1.len() + g2.len() + q]).3 == g3[q] && cloned(self.0, out@[g0.len() + g1.len() + g2.len() + q].0) && cloned(self.1, out@[g0.len() + g1.len() + g2.len() + q].1) && cloned(self.2, out@[g0.len() + g1.len() + g2.len() + q].2) && cloned(self.4, out@[g0.len() + g1.len() + g2.len() + q].4) by {
                if q < k3 {
                    assert(out@[g0.len() + g1.len() + g2.len() + q] == before[g0.len() + g1.len() + g2.len() + q]);
                }
            }
            k3 = k3 + 1;
        }
        let mut c4 = self.4.shrink();
        let ghost g4 = c4@;
        assert(g4.len() == c4.len());
        let mut k4: usize = 0;
        while c4.len() > 0
            invariant
                k4 <= g4.len(),
                g4.len() <= usize::MAX,
                g0.len() <= usize::MAX,
                g1.len() <= usize::MAX,
                g2.len() <= usize::MAX,
                g3.len() <= usize::MAX,
                c4@ == g4.skip(k4 as int),
                out@.len() == g0.len() + g1.len() + g2.len() + g3.len() + k4,
                forall|q: int| 0 <= q < g0.len() ==> (#[trigger] out@[0 + q]).0 == g0[q] && cloned(self.1, out@[0 + q].1) && cloned(self.2, out@[0 + q].2) && cloned(self.3, out@[0 + q].3) && cloned(self.4, out@[0 + q].4),
                forall|q: int| 0 <= q < g1.len() ==> (#[trigger] out@[g0.len() + q]).1 == g1[q] && cloned(self.0, out@[g0.len() + q].0) && cloned(self.2, out@[g0.len() + q].2) && cloned(self.3, out@[g0.len() + q].3) && cloned(self.4, out@[g0.len() + q].4),
                forall|q: int| 0 <= q < g2.len() ==> (#[trigger] out@[g0.len() + g1.len() + q]).2 == g2[q] && cloned(self.0, out@[g0.len() + g1.len() + q].0) && cloned(self.1, out@[g0.len() + g1.len() + q].1) && cloned(self.3, out@[g0.len() + g1.len() + q].3) && cloned(self.4, out@[g0.len() + g1.len() + q].4),
                forall|q: int| 0 <= q < g3.len() ==> (#[trigger] out@[g0.len() + g1.len() + g2.len() + q]).3 == g3[q] && cloned(self.0, out@[g0.len() + g1.len() + g2.len() + q].0) && cloned(self.1, out@[g0.len() + g1.len() + g2.len() + q].1) && cloned(self.2, out@[g0.len() + g1.len() + g2.len() + q].2) && cloned(self.4, out@[g0.len() + g1.len() + g2.len() + q].4),
                forall|q: int| 0 <= q < k4 ==> (#[trigger] out@[g0.len() + g1.len() + g2.len() + g3.len() + q]).4 == g4[q] && cloned(self.0, out@[g0.len() + g1.len() + g2.len() + g3.len() + q].0) && cloned(self.1, out@[g0.len() + g1.len() + g2.len() + g3.len() + q].1) && cloned(self.2, out@[g0.len() + g1.len() + g2.len() + g3.len() + q].2) && cloned(self.3, out@[g0.len() + g1.len() + g2.len() + g3.len() + q].3),
            decreases c4@.len(),
        {
            let c = c4.remove(0);
            assert(c == g4[k4 as int]);
            assert(c4@ == g4.skip(k4 + 1));
            let ghost before = out@;
            out.push((self.0.clone(), self.1.clone(), self.2.clone(), self.3.clone(), c));
            assert forall|q: int| 0 <= q < g0.len() implies (#[trigger] out@[0 + q]).0 == g0[q] && cloned(self.1, out@[0 + q].1) && cloned(self.2, out@[0 + q].2) && cloned(self.3, out@[0 + q].3) && cloned(self.4, out@[0 + q].4) by {
                assert(out@[0 + q] == before[0 + q]);
            }
            assert forall|q: int| 0 <= q < g1.len() implies (#[trigger] out@[g0.len() + q]).1 == g1[q] && cloned(self.0, out@[g0.len() + q].0) && cloned(self.2, out@[g0.len() + q].2) && cloned(self.3, out@[g0.len() + q].3) && cloned(self.4, out@[g0.len() + q].4) by {
                assert(out@[g0.len() + q] == before[g0.len() + q]);
            }
            assert forall|q: int| 0 <= q < g2.len() implies (#[trigger] out@[g0.len() + g1.len() + q]).2 == g2[q] && cloned(self.0, out@[g0.len() + g1.len() + q].0) && cloned(self.1, out@[g0.len() + g1.len() + q].1) && cloned(self.3, out@[g0.len() + g1.len() + q].3) && cloned(self.4, out@[g0.len() + g1.len() + q].4) by {
                assert(out@[g0.len() + g1.len() + q] == before[g0.len() + g1.len() + q]);
            }
            assert forall|q: int| 0 <= q < g3.len() implies (#[trigger] out@[g0.len() + g1.len() + g2.len() + q]).3 == g3[q] && cloned(self.0, out@[g0.len() + g1.len() + g2.len() + q].0) && cloned(self.1, out@[g0.len() + g1.len() + g2.len() + q].1) && cloned(self.2, out@[g0.len() + g1.len() + g2.len() + q].2) && cloned(self.4, out@[g0.len() + g1.len() + g2.len() + q].4) by {
                assert(out@[g0.len() + g1.len() + g2.len() + q] == before[g0.len() + g1.len() + g2.len() + q]);
            }
            assert forall|q: int| 0 <= q < k4 + 1 implies (#[trigger] out@[g0.len() + g1.len() + g2.len() + g3.len() + q]).4 == g4[q] && cloned(self.0, out@[g0.len() + g1.len() + g2.len() + g3.len() + q].0) && cloned(self.1, out@[g0.len() + g1.len() + g2.len() + g3.len() + q].1) && cloned(self.2, out@[g0.len() + g1.len() + g2.len() + g3.len() + q].2) && cloned(self.3, out@[g0.len() + g1.len() + g2.len() + g3.len() + q].3) by {
                if q < k4 {
                    assert(out@[g0.len() + g1.len() + g2.len() + g3.len() + q] == before[g0.len() + g1.len() + g2.len() + g3.len() + q]);
                }
            }
            k4 = k4 + 1;
        }
        proof {
            assert(self.0.shrinks_to(g0));
            assert(self.1.shrinks_to(g1));
            assert(self.2.shrinks_to(g2));
            assert(self.3.shrinks_to(g3));
            assert(self.4.shrinks_to(g4));
        }
        out
    }
}

impl<A: Arbitrary + Clone, B: Arbitrary + Clone, C: Arbitrary + Clone, D: Arbitrary + Clone, E: Arbitrary + Clone, F: Arbitrary + Clone> Arbitrary for (A, B, C, D, E, F) {
    open spec fn shrinks_to(&self, r: Seq<(A, B, C, D, E, F)>) -> bool {
        exists|s0: Seq<A>, s1: Seq<B>, s2: Seq<C>, s3: Seq<D>, s4: Seq<E>, s5: Seq<F>|
            {
                &&& self.0.shrinks_to(s0)
                &&& self.1.shrinks_to(s1)
                &&& self.2.shrinks_to(s2)
                &&& self.3.shrinks_to(s3)
                &&& self.4.shrinks_to(s4)
                &&& self.5.shrinks_to(s5)
                &&& r.len() == s0.len() + s1.len() + s2.len() + s3.len() + s4.len() + s5.len()
                &&& forall|k: int| 0 <= k < s0.len() ==> (#[trigger] r[0 + k]).0 == s0[k] && cloned(self.1, r[0 + k].1) && cloned(self.2, r[0 + k].2) && cloned(self.3, r[0 + k].3) && cloned(self.4, r[0 + k].4) && cloned(self.5, r[0 + k].5)
                &&& forall|k: int| 0 <= k < s1.len() ==> (#[trigger] r[s0.len() + k]).1 == s1[k] && cloned(self.0, r[s0.len() + k].0) && cloned(self.2, r[s0.len() + k].2) && cloned(self.3, r[s0.len() + k].3) && cloned(self.4, r[s0.len() + k].4) && cloned(self.5, r[s0.len() + k].5)
                &&& forall|k: int| 0 <= k < s2.len() ==> (#[trigger] r[s0.len() + s1.len() + k]).2 == s2[k] && cloned(self.0, r[s0.len() + s1.len() + k].0) && cloned(self.1, r[s0.len() + s1.len() + k].1) && cloned(self.3, r[s0.len() + s1.len() + k].3) && cloned(self.4, r[s0.len() + s1.len() + k].4) && cloned(self.5, r[s0.len() + s1.len() + k].5)
                &&& forall|k: int| 0 <= k < s3.len() ==> (#[trigger] r[s0.len() + s1.len() + s2.len() + k]).3 == s3[k] && cloned(self.0, r[s0.len() + s1.len() + s2.len() + k].0) && cloned(self.1, r[s0.len() + s1.len() + s2.len() + k].1) && cloned(self.2, r[s0.len() + s1.len() + s2.len() + k].2) && cloned(self.4, r[s0.len() + s1.len() + s2.len() + k].4) && cloned(self.5, r[s0.len() + s1.len() + s2.len() + k].5)
                &&& forall|k: int| 0 <= k < s4.len() ==> (#[trigger] r[s0.len() + s1.len() + s2.len() + s3.len() + k]).4 == s4[k] && cloned(self.0, r[s0.len() + s1.len() + s2.len() + s3.len() + k].0) && cloned(self.1, r[s0.len() + s1.len() + s2.len() + s3.len() + k].1) && cloned(self.2, r[s0.len() + s1.len() + s2.len() + s3.len() + k].2) && cloned(self.3, r[s0.len() + s1.len() + s2.len() + s3.len() + k].3) && cloned(self.5, r[s0.len() + s1.len() + s2.len() + s3.len() + k].5)
                &&& forall|k: int| 0 <= k < s5.len() ==> (#[trigger] r[s0.len() + s1.len() + s2.len() + s3.len() + s4.len() + k]).5 == s5[k] && cloned(self.0, r[s0.len() + s1.len() + s2.len() + s3.len() + s4.len() + k].0) && cloned(self.1, r[s0.len() + s1.len() + s2.len() + s3.len() + s4.len() + k].1) && cloned(self.2, r[s0.len() + s1.len() + s2.len() + s3.len() + s4.len() + k].2) && cloned(self.3, r[s0.len() + s1.len() + s2.len() + s3.len() + s4.len() + k].3) && cloned(self.4, r[s0.len() + s1.len() + s2.len() + s3.len() + s4.len() + k].4)
            }
    }

    /// Each component generated in order.
    /// The components generated in turn, each starting where the one
    /// before left the generator.
    open spec fn arbitrary_from(before: Stream, after: Stream, size: usize, v: (A, B, C, D, E, F)) -> bool {
        exists|m1: Stream, m2: Stream, m3: Stream, m4: Stream, m5: Stream|
            #![trigger A::arbitrary_from(before, m1, size, v.0), B::arbitrary_from(m1, m2, size, v.1), C::arbitrary_from(m2, m3, size, v.2), D::arbitrary_from(m3, m4, size, v.3), E::arbitrary_from(m4, m5, size, v.4), F::arbitrary_from(m5, after, size, v.5)]
            A::arbitrary_from(before, m1, size, v.0)
            && B::arbitrary_from(m1, m2, size, v.1)
            && C::arbitrary_from(m2, m3, size, v.2)
            && D::arbitrary_from(m3, m4, size, v.3)
            && E::arbitrary_from(m4, m5, size, v.4)
            && F::arbitrary_from(m5, after, size, v.5)
    }

    fn arbitrary<R: Rng>(rng: &mut R, size: usize) -> (r: (A, B, C, D, E, F)) {
        let ghost s0 = *rng;
        let v0 = A::arbitrary(rng, size);
        let ghost s1 = *rng;
        let v1 = B::arbitrary(rng, size);
        let ghost s2 = *rng;
        let v2 = C::arbitrary(rng, size);
        let ghost s3 = *rng;
        let v3 = D::arbitrary(rng, size);
        let ghost s4 = *rng;
        let v4 = E::arbitrary(rng, size);
        let ghost s5 = *rng;
        let v5 = F::arbitrary(rng, size);
        let ghost s6 = *rng;
        let r = (v0, v1, v2, v3, v4, v5);
        assert(A::arbitrary_from(outputs(s0), outputs(s1), size, r.0) && B::arbitrary_from(outputs(s1), outputs(s2), size, r.1) && C::arbitrary_from(outputs(s2), outputs(s3), size, r.2) && D::arbitrary_from(outputs(s3), outputs(s4), size, r.3) && E::arbitrary_from(outputs(s4), outputs(s5), size, r.4) && F::arbitrary_from(outputs(s5), outputs(s6), size, r.5));
        r
    }

    /// Each component's candidates in turn, the other components cloned.
    fn shrink(&self) -> (r: Vec<(A, B, C, D, E, F)>) {
        let mut out: Vec<(A, B, C, D, E, F)> = Vec::new();
        let mut c0 = self.0.shrink();
        let ghost g0 = c0@;
        assert(g0.len() == c0.len());
        let mut k0: usize = 0;
        while c0.len() > 0
            invariant
                k0 <= g0.len(),
                g0.len() <= usize::MAX,
                c0@ == g0.skip(k0 as int),
                out@.len() == 0 + k0,
                forall|q: int| 0 <= q < k0 ==> (#[trigger] out@[0 + q]).0 == g0[q] && cloned(self.1, out@[0 + q].1) && cloned(self.2, out@[0 + q].2) && cloned(self.3, out@[0 + q].3) && cloned(self.4, out@[0 + q].4) && cloned(self.5, out@[0 + q].5),
            decreases c0@.len(),
        {
            let c = c0.remove(0);
            assert(c == g0[k0 as int]);
            assert(c0@ == g0.skip(k0 + 1));
            let ghost before = out@;
            out.push((c, self.1.clone(), self.2.clone(), self.3.clone(), self.4.clone(), self.5.clone()));
            assert forall|q: int| 0 <= q < k0 + 1 implies (#[trigger] out@[0 + q]).0 == g0[q] && cloned(self.1, out@[0 + q].1) && cloned(self.2, out@[0 + q].2) && cloned(self.3, out@[0 + q].3) && cloned(self.4, out@[0 + q].4) && cloned(self.5, out@[0 + q].5) by {
                if q < k0 {
                    assert(out@[0 + q] == before[0 + q]);
                }
            }
            k0 = k0 + 1;
        }
        let mut c1 = self.1.shrink();
        let ghost g1 = c1@;
        assert(g1.len() == c1.len());
        let mut k1: usize = 0;
        while c1.len() > 0
            invariant
                k1 <= g1.len(),
                g1.len() <= usize::MAX,
                g0.len() <= usize::MAX,
                c1@ == g1.skip(k1 as int),
                out@.len() == g0.len() + k1,
                forall|q: int| 0 <= q < g0.len() ==> (#[trigger] out@[0 + q]).0 == g0[q] && cloned(self.1, out@[0 + q].1) && cloned(self.2, out@[0 + q].2) && cloned(self.3, out@[0 + q].3) && cloned(self.4, out@[0 + q].4) && cloned(self.5, out@[0 + q].5),
                forall|q: int| 0 <= q < k1 ==> (#[trigger] out@[g0.len() + q]).1 == g1[q] && cloned(self.0, out@[g0.len() + q].0) && cloned(self.2, out@[g0.len() + q].2) && cloned(self.3, out@[g0.len() + q].3) && cloned(self.4, out@[g0.len() + q].4) && cloned(self.5, out@[g0.len() + q].5),
            decreases c1@.len(),
        {
            let c = c1.remove(0);
            assert(c == g1[k1 as int]);
            assert(c1@ == g1.skip(k1 + 1));
            let ghost before = out@;
            out.push((self.0.clone(), c, self.2.clone(), self.3.clone(), self.4.clone(), self.5.clone()));
            assert forall|q: int| 0 <= q < g0.len() implies (#[trigger] out@[0 + q]).0 == g0[q] && cloned(self.1, out@[0 + q].1) && cloned(self.2, out@[0 + q].2) && cloned(self.3, out@[0 + q].3) && cloned(self.4, out@[0 + q].4) && cloned(self.5, out@[0 + q].5) by {
                assert(out@[0 + q] == before[0 + q]);
            }
            assert forall|q: int| 0 <= q < k1 + 1 implies (#[trigger] out@[g0.len() + q]).1 == g1[q] && cloned(self.0, out@[g0.len() + q].0) && cloned(self.2, out@[g0.len() + q].2) && cloned(self.3, out@[g0.len() + q].3) && cloned(self.4, out@[g0.len() + q].4) && cloned(self.5, out@[g0.len() + q].5) by {
                if q < k1 {
                    assert(out@[g0.len() + q] == before[g0.len() + q]);
                }
            }
            k1 = k1 + 1;
        }
        let mut c2 = self.2.shrink();
        let ghost g2 = c2@;
        assert(g2.len() == c2.len());
        let mut k2: usize = 0;
        while c2.len() > 0
            invariant
                k2 <= g2.len(),
                g2.len() <= usize::MAX,
                g0.len() <= usize::MAX,
                g1.len() <= usize::MAX,
                c2@ == g2.skip(k2 as int),
                out@.len() == g0.len() + g1.len() + k2,
                forall|q: int| 0 <= q < g0.len() ==> (#[trigger] out@[0 + q]).0 == g0[q] && cloned(self.1, out@[0 + q].1) && cloned(self.2, out@[0 + q].2) && cloned(self.3, out@[0 + q].3) && cloned(self.4, out@[0 + q].4) && cloned(self.5, out@[0 + q].5),
                forall|q: int| 0 <= q < g1.len() ==> (#[trigger] out@[g0.len() + q]).1 == g1[q] && cloned(self.0, out@[g0.len() + q].0) && cloned(self.2, out@[g0.len() + q].2) && cloned(self.3, out@[g0.len() + q].3) && cloned(self.4, out@[g0.len() + q].4) && cloned(self.5, out@[g0.len() + q].5),
                forall|q: int| 0 <= q < k2 ==> (#[trigger] out@[g0.len() + g1.len() + q]).2 == g2[q] && cloned(self.0, out@[g0.len() + g1.len() + q].0) && cloned(self.1, out@[g0.len() + g1.len() + q].1) && cloned(self.3, out@[g0.len() + g1.len() + q].3) && cloned(self.4, out@[g0.len() + g1.len() + q].4) && cloned(self.5, out@[g0.len() + g1.len() + q].5),
            decreases c2@.len(),
        {
            let c = c2.remove(0);
            assert(c == g2[k2 as int]);
            assert(c2@ == g2.skip(k2 + 1));
            let ghost before = out@;
            out.push((self.0.clone(), self.1.clone(), c, self.3.clone(), self.4.clone(), self.5.clone()));
            assert forall|q: int| 0 <= q < g0.len() implies (#[trigger] out@[0 + q]).0 == g0[q] && cloned(self.1, out@[0 + q].1) && cloned(self.2, out@[0 + q].2) && cloned(self.3, out@[0 + q].3) && cloned(self.4, out@[0 + q].4) && cloned(self.5, out@[0 + q].5) by {
                assert(out@[0 + q] == before[0 + q]);
            }
            assert forall|q: int| 0 <= q < g1.len() implies (#[trigger] out@[g0.len() + q]).1 == g1[q] && cloned(self.0, out@[g0.len() + q].0) && cloned(self.2, out@[g0.len() + q].2) && cloned(self.3, out@[g0.len() + q].3) && cloned(self.4, out@[g0.len() + q].4) && cloned(self.5, out@[g0.len() + q].5) by {
                assert(out@[g0.len() + q] == before[g0.len() + q]);
            }
            assert forall|q: int| 0 <= q < k2 + 1 implies (#[trigger] out@[g0.len() + g1.len() + q]).2 == g2[q] && cloned(self.0, out@[g0.len() + g1.len() + q].0) && cloned(self.1, out@[g0.len() + g1.len() + q].1) && cloned(self.3, out@[g0.len() + g1.len() + q].3) && cloned(self.4, out@[g0.len() + g1.len() + q].4) && cloned(self.5, out@[g0.len() + g1.len() + q].5) by {
                if q < k2 {
                    assert(out@[g0.len() + g1.len() + q] == before[g0.len() + g1.len() + q]);
                }
            }
            k2 = k2 + 1;
        }
        let mut c3 = self.3.shrink();
        let ghost g3 = c3@;
        assert(g3.len() == c3.len());
        let mut k3: usize = 0;
        while c3.len() > 0
            invariant
                k3 <= g3.len(),
                g3.len() <= usize::MAX,
                g0.len() <= usize::MAX,
                g1.len() <= usize::MAX,
                g2.len() <= usize::MAX,
                c3@ == g3.skip(k3 as int),
                out@.len() == g0.len() + g1.len() + g2.len() + k3,
                forall|q: int| 0 <= q < g0.len() ==> (#[trigger] out@[0 + q]).0 == g0[q] && cloned(self.1, out@[0 + q].1) && cloned(self.2, out@[0 + q].2) && cloned(self.3, out@[0 + q].3) && cloned(self.4, out@[0 + q].4) && cloned(self.5, out@[0 + q].5),
                forall|q: int| 0 <= q < g1.len() ==> (#[trigger] out@[g0.len() + q]).1 == g1[q] && cloned(self.0, out@[g0.len() + q].0) && cloned(self.2, out@[g0.len() + q].2) && cloned(self.3, out@[g0.len() + q].3) && cloned(self.4, out@[g0.len() + q].4) && cloned(self.5, out@[g0.len() + q].5),
                forall|q: int| 0 <= q < g2.len() ==> (#[trigger] out@[g0.len() + g1.len() + q]).2 == g2[q] && cloned(self.0, out@[g0.len() + g1.len() + q].0) && cloned(self.1, out@[g0.len() + g1.len() + q].1) && cloned(self.3, out@[g0.len() + g1.len() + q].3) && cloned(self.4, out@[g0.len() + g1.len() + q].4) && cloned(self.5, out@[g0.len() + g1.len() + q].5),
                forall|q: int| 0 <= q < k3 ==> (#[trigger] out@[g0.len() + g1.len() + g2.len() + q]).3 == g3[q] && cloned(self.0, out@[g0.len() + g1.len() + g2.len() + q].0) && cloned(self.1, out@[g0.len() + g1.len() + g2.len() + q].1) && cloned(self.2, out@[g0.len() + g1.len() + g2.len() + q].2) && cloned(self.4, out@[g0.len() + g1.len() + g2.len() + q].4) && cloned(self.5, out@[g0.len() + g1.len() + g2.len() + q].5),
            decreases c3@.len(),
        {
            let c = c3.remove(0);
            assert(c == g3[k3 as int]);
            assert(c3@ == g3.skip(k3 + 1));
            let ghost before = out@;
            out.push((self.0.clone(), self.1.clone(), self.2.clone(), c, self.4.clone(), self.5.clone()));
            assert forall|q: int| 0 <= q < g0.len() implies (#[trigger] out@[0 + q]).0 == g0[q] && cloned(self.1, out@[0 + q].1) && cloned(self.2, out@[0 + q].2) && cloned(self.3, out@[0 + q].3) && cloned(self.4, out@[0 + q].4) && cloned(self.5, out@[0 + q].5) by {
                assert(out@[0 + q] == before[0 + q]);
            }
            assert forall|q: int| 0 <= q < g1.len() implies (#[trigger] out@[g0.len() + q]).1 == g1[q] && cloned(self.0, out@[g0.len() + q].0) && cloned(self.2, out@[g0.len() + q].2) && cloned(self.3, out@[g0.len() + q].3) && cloned(self.4, out@[g0.len() + q].4) && cloned(self.5, out@[g0.len() + q].5) by {
                assert(out@[g0.len() + q] == before[g0.len() + q]);
            }
            assert forall|q: int| 0 <= q < g2.len() implies (#[trigger] out@[g0.len() + g1.len() + q]).2 == g2[q] && cloned(self.0, out@[g0.len() + g1.len() + q].0) && cloned(self.1, out@[g0.len() + g1.len() + q].1) && cloned(self.3, out@[g0.len() + g1.len() + q].3) && cloned(self.4, out@[g0.len() + g1.len() + q].4) && cloned(self.5, out@[g0.len() + g1.len() + q].5) by {
                assert(out@[g0.len() + g1.len() + q] == before[g0.len() + g1.len() + q]);
            }
            assert forall|q: int| 0 <= q < k3 + 1 implies (#[trigger] out@[g0.len() + g1.len() + g2.len() + q]).3 == g3[q] && cloned(self.0, out@[g0.len() + g1.len() + g2.len() + q].0) && cloned(self.1, out@[g0.len() + g1.len() + g2.len() + q].1) && cloned(self.2, out@[g0.len() + g1.len() + g2.len() + q].2) && cloned(self.4, out@[g0.len() + g1.len() + g2.len() + q].4) && cloned(self.5, out@[g0.len() + g1.len() + g2.len() + q].5) by {
                if q < k3 {
                    assert(out@[g0.len() + g1.len() + g2.len() + q] == before[g0.len() + g1.len() + g2.len() + q]);
                }
            }
            k3 = k3 + 1;
        }
        let mut c4 = self.4.shrink();
        let ghost g4 = c4@;
        assert(g4.len() == c4.len());
        let mut k4: usize = 0;
        while c4.len() > 0
            invariant
                k4 <= g4.len(),
                g4.len() <= usize::MAX,
                g0.len() <= usize::MAX,
                g1.len() <= usize::MAX,
                g2.len() <= usize::MAX,
                g3.len() <= usize::MAX,
                c4@ == g4.skip(k4 as int),
                out@.len() == g0.len() + g1.len() + g2.len() + g3.len() + k4,
                forall|q: int| 0 <= q < g0.len() ==> (#[trigger] out@[0 + q]).0 == g0[q] && cloned(self.1, out@[0 + q].1) && cloned(self.2, out@[0 + q].2) && cloned(self.3, out@[0 + q].3) && cloned(self.4, out@[0 + q].4) && cloned(self.5, out@[0 + q].5),
                forall|q: int| 0 <= q < g1.len() ==> (#[trigger] out@[g0.len() + q]).1 == g1[q] && cloned(self.0, out@[g0.len() + q].0) && cloned(self.2, out@[g0.len() + q].2) && cloned(self.3, out@[g0.len() + q].3) && cloned(self.4, out@[g0.len() + q].4) && cloned(self.5, out@[g0.len() + q].5),
                forall|q: int| 0 <= q < g2.len() ==> (#[trigger] out@[g0.len() + g1.len() + q]).2 == g2[q] && cloned(self.0, out@[g0.len() + g1.len() + q].0) && cloned(self.1, out@[g0.len() + g1.len() + q].1) && cloned(self.3, out@[g0.len() + g1.len() + q].3) && cloned(self.4, out@[g0.len() + g1.len() + q].4) && cloned(self.5, out@[g0.len() + g1.len() + q].5),
                forall|q: int| 0 <= q < g3.len() ==> (#[trigger] out@[g0.len() + g1.len() + g2.len() + q]).3 == g3[q] && cloned(self.0, out@[g0.len() + g1.len() + g2.len() + q].0) && cloned(self.1, out@[g0.len() + g1.len() + g2.len() + q].1) && cloned(self.2, out@[g0.len() + g1.len() + g2.len() + q].2) && cloned(self.4, out@[g0.len() + g1.len() + g2.len() + q].4) && cloned(self.5, out@[g0.len() + g1.len() + g2.len() + q].5),
                forall|q: int| 0 <= q < k4 ==> (#[trigger] out@[g0.len() + g1.len() + g2.len() + g3.len() + q]).4 == g4[q] && cloned(self.0, out@[g0.len() + g1.len() + g2.len() + g3.len() + q].0) && cloned(self.1, out@[g0.len() + g1.len() + g2.len() + g3.len() + q].1) && cloned(self.2, out@[g0.len() + g1.len() + g2.len() + g3.len() + q].2) && cloned(self.3, out@[g0.len() + g1.len() + g2.len() + g3.len() + q].3) && cloned(self.5, out@[g0.len() + g1.len() + g2.len() + g3.len() + q].5),
            decreases c4@.len(),
        {
            let c = c4.remove(0);
            assert(c == g4[k4 as int]);
            assert(c4@ == g4.skip(k4 + 1));
            let ghost before = out@;
            out.push((self.0.clone(), self.1.clone(), self.2.clone(), self.3.clone(), c, self.5.clone()));
            assert forall|q: int| 0 <= q < g0.len() implies (#[trigger] out@[0 + q]).0 == g0[q] && cloned(self.1, out@[0 + q].1) && cloned(self.2, out@[0 + q].2) && cloned(self.3, out@[0 + q].3) && cloned(self.4, out@[0 + q].4) && cloned(self.5, out@[0 + q].5) by {
                assert(out@[0 + q] == before[0 + q]);
            }
            assert forall|q: int| 0 <= q < g1.len() implies (#[trigger] out@[g0.len() + q]).1 == g1[q] && cloned(self.0, out@[g0.len() + q].0) && cloned(self.2, out@[g0.len() + q].2) && cloned(self.3, out@[g0.len() + q].3) && cloned(self.4, out@[g0.len() + q].4) && cloned(self.5, out@[g0.len() + q].5) by {
                assert(out@[g0.len() + q] == before[g0.len() + q]);
            }
            assert forall|q: int| 0 <= q < g2.len() implies (#[trigger] out@[g0.len() + g1.len() + q]).2 == g2[q] && cloned(self.0, out@[g0.len() + g1.len() + q].0) && cloned(self.1, out@[g0.len() + g1.len() + q].1) && cloned(self.3, out@[g0.len() + g1.len() + q].3) && cloned(self.4, out@[g0.len() + g1.len() + q].4) && cloned(self.5, out@[g0.len() + g1.len() + q].5) by {
                assert(out@[g0.len() + g1.len() + q] == before[g0.len() + g1.len() + q]);
            }
            assert forall|q: int| 0 <= q < g3.len() implies (#[trigger] out@[g0.len() + g1.len() + g2.len() + q]).3 == g3[q] && cloned(self.0, out@[g0.len() + g1.len() + g2.len() + q].0) && cloned(self.1, out@[g0.len() + g1.len() + g2.len() + q].1) && cloned(self.2, out@[g0.len() + g1.len() + g2.len() + q].2) && cloned(self.4, out@[g0.len() + g1.len() + g2.len() + q].4) && cloned(self.5, out@[g0.len() + g1.len() + g2.len() + q].5) by {
                assert(out@[g0.len() + g1.len() + g2.len() + q] == before[g0.len() + g1.len() + g2.len() + q]);
            }
            assert forall|q: int| 0 <= q < k4 + 1 implies (#[trigger] out@[g0.len() + g1.len() + g2.len() + g3.len() + q]).4 == g4[q] && cloned(self.0, out@[g0.len() + g1.len() + g2.len() + g3.len() + q].0) && cloned(self.1, out@[g0.len() + g1.len() + g2.len() + g3.len() + q].1) && cloned(self.2, out@[g0.len() + g1.len() + g2.len() + g3.len() + q].2) && cloned(self.3, out@[g0.len() + g1.len() + g2.len() + g3.len() + q].3) && cloned(self.5, out@[g0.len() + g1.len() + g2.len() + g3.len() + q].5) by {
                if q < k4 {
                    assert(out@[g0.len() + g1.len() + g2.len() + g3.len() + q] == before[g0.len() + g1.len() + g2.len() + g3.len() + q]);
                }
            }
            k4 = k4 + 1;
        }
        let mut c5 = self.5.shrink();
        let ghost g5 = c5@;
        assert(g5.len() == c5.len());
        let mut k5: usize = 0;
        while c5.len() > 0
            invariant
                k5 <= g5.len(),
                g5.len() <= usize::MAX,
                g0.len() <= usize::MAX,
                g1.len() <= usize::MAX,
                g2.len() <= usize::MAX,
                g3.len() <= usize::MAX,
                g4.len() <= usize::MAX,
                c5@ == g5.skip(k5 as int),
                out@.len() == g0.len() + g1.len() + g2.len() + g3.len() + g4.len() + k5,
                forall|q: int| 0 <= q < g0.len() ==> (#[trigger] out@[0 + q]).0 == g0[q] && cloned(self.1, out@[0 + q].1) && cloned(self.2, out@[0 + q].2) && cloned(self.3, out@[0 + q].3) && cloned(self.4, out@[0 + q].4) && cloned(self.5, out@[0 + q].5),
                forall|q: int| 0 <= q < g1.len() ==> (#[trigger] out@[g0.len() + q]).1 == g1[q] && cloned(self.0, out@[g0.len() + q].0) && cloned(self.2, out@[g0.len() + q].2) && cloned(self.3, out@[g0.len() + q].3) && cloned(self.4, out@[g0.len() + q].4) && cloned(self.5, out@[g0.len() + q].5),
                forall|q: int| 0 <= q < g2.len() ==> (#[trigger] out@[g0.len() + g1.len() + q]).2 == g2[q] && cloned(self.0, out@[g0.len() + g1.len() + q].0) && cloned(self.1, out@[g0.len() + g1.len() + q].1) && cloned(self.3, out@[g0.len() + g1.len() + q].3) && cloned(self.4, out@[g0.len() + g1.len() + q].4) && cloned(self.5, out@[g0.len() + g1.len() + q].5),
                forall|q: int| 0 <= q < g3.len() ==> (#[trigger] out@[g0.len() + g1.len() + g2.len() + q]).3 == g3[q] && cloned(self.0, out@[g0.len() + g1.len() + g2.len() + q].0) && cloned(self.1, out@[g0.len() + g1.len() + g2.len() + q].1) && cloned(self.2, out@[g0.len() + g1.len() + g2.len() + q].2) && cloned(self.4, out@[g0.len() + g1.len() + g2.len() + q].4) && cloned(self.5, out@[g0.len() + g1.len() + g2.len() + q].5),
                forall|q: int| 0 <= q < g4.len() ==> (#[trigger] out@[g0.len() + g1.len() + g2.len() + g3.len() + q]).4 == g4[q] && cloned(self.0, out@[g0.len() + g1.len() + g2.len() + g3.len() + q].0) && cloned(self.1, out@[g0.len() + g1.len() + g2.len() + g3.len() + q].1) && cloned(self.2, out@[g0.len() + g1.len() + g2.len() + g3.len() + q].2) && cloned(self.3, out@[g0.len() + g1.len() + g2.len() + g3.len() + q].3) && cloned(self.5, out@[g0.len() + g1.len() + g2.len() + g3.len() + q].5),
                forall|q: int| 0 <= q < k5 ==> (#[trigger] out@[g0.len() + g1.len() + g2.len() + g3.len() + g4.len() + q]).5 == g5[q] && cloned(self.0, out@[g0.len() + g1.len() + g2.len() + g3.len() + g4.len() + q].0) && cloned(self.1, out@[g0.len() + g1.len() + g2.len() + g3.len() + g4.len() + q].1) && cloned(self.2, out@[g0.len() + g1.len() + g2.len() + g3.len() + g4.len() + q].2) && cloned(self.3, out@[g0.len() + g1.len() + g2.len() + g3.len() + g4.len() + q].3) && cloned(self.4, out@[g0.len() + g1.len() + g2.len() + g3.len() + g4.len() + q].4),
            decreases c5@.len(),
        {
            let c = c5.remove(0);
            assert(c == g5[k5 as int]);
            assert(c5@ == g5.skip(k5 + 1));
            let ghost before = out@;
            out.push((self.0.clone(), self.1.clone(), self.2.clone(), self.3.clone(), self.4.clone(), c));
            assert forall|q: int| 0 <= q < g0.len() implies (#[trigger] out@[0 + q]).0 == g0[q] && cloned(self.1, out@[0 + q].1) && cloned(self.2, out@[0 + q].2) && cloned(self.3, out@[0 + q].3) && cloned(self.4, out@[0 + q].4) && cloned(self.5, out@[0 + q].5) by {
                assert(out@[0 + q] == before[0 + q]);
            }
            assert forall|q: int| 0 <= q < g1.len() implies (#[trigger] out@[g0.len() + q]).1 == g1[q] && cloned(self.0, out@[g0.len() + q].0) && cloned(self.2, out@[g0.len() + q].2) && cloned(self.3, out@[g0.len() + q].3) && cloned(self.4, out@[g0.len() + q].4) && cloned(self.5, out@[g0.len() + q].5) by {
                assert(out@[g0.len() + q] == before[g0.len() + q]);
            }
            assert forall|q: int| 0 <= q < g2.len() implies (#[trigger] out@[g0.len() + g1.len() + q]).2 == g2[q] && cloned(self.0, out@[g0.len() + g1.len() + q].0) && cloned(self.1, out@[g0.len() + g1.len() + q].1) && cloned(self.3, out@[g0.len() + g1.len() + q].3) && cloned(self.4, out@[g0.len() + g1.len() + q].4) && cloned(self.5, out@[g0.len() + g1.len() + q].5) by {
                assert(out@[g0.len() + g1.len() + q] == before[g0.len() + g1.len() + q]);
            }
            assert forall|q: int| 0 <= q < g3.len() implies (#[trigger] out@[g0.len() + g1.len() + g2.len() + q]).3 == g3[q] && cloned(self.0, out@[g0.len() + g1.len() + g2.len() + q].0) && cloned(self.1, out@[g0.len() + g1.len() + g2.len() + q].1) && cloned(self.2, out@[g0.len() + g1.len() + g2.len() + q].2) && cloned(self.4, out@[g0.len() + g1.len() + g2.len() + q].4) && cloned(self.5, out@[g0.len() + g1.len() + g2.len() + q].5) by {
                assert(out@[g0.len() + g1.len() + g2.len() + q] == before[g0.len() + g1.len() + g2.len() + q]);
            }
            assert forall|q: int| 0 <= q < g4.len() implies (#[trigger] out@[g0.len() + g1.len() + g2.len() + g3.len() + q]).4 == g4[q] && cloned(self.0, out@[g0.len() + g1.len() + g2.len() + g3.len() + q].0) && cloned(self.1, out@[g0.len() + g1.len() + g2.len() + g3.len() + q].1) && cloned(self.2, out@[g0.len() + g1.len() + g2.len() + g3.len() + q].2) && cloned(self.3, out@[g0.len() + g1.len() + g2.len() + g3.len() + q].3) && cloned(self.5, out@[g0.len() + g1.len() + g2.len() + g3.len() + q].5) by {
                assert(out@[g0.len() + g1.len() + g2.len() + g3.len() + q] == before[g0.len() + g1.len() + g2.len() + g3.len() + q]);
            }
            assert forall|q: int| 0 <= q < k5 + 1 implies (#[trigger] out@[g0.len() + g1.len() + g2.len() + g3.len() + g4.len() + q]).5 == g5[q] && cloned(self.0, out@[g0.len() + g1.len() + g2.len() + g3.len() + g4.len() + q].0) && cloned(self.1, out@[g0.len() + g1.len() + g2.len() + g3.len() + g4.len() + q].1) && cloned(self.2, out@[g0.len() + g1.len() + g2.len() + g3.len() + g4.len() + q].2) && cloned(self.3, out@[g0.len() + g1.len() + g2.len() + g3.len() + g4.len() + q].3) && cloned(self.4, out@[g0.len() + g1.len() + g2.len() + g3.len() + g4.len() + q].4) by {
                if q < k5 {
                    assert(out@[g0.len() + g1.len() + g2.len() + g3.len() + g4.len() + q] == before[g0.len() + g1.len() + g2.len() + g3.len() + g4.len() + q]);
                }
            }
            k5 = k5 + 1;
        }
        proof {
            assert(self.0.shrinks_to(g0));
            assert(self.1.shrinks_to(g1));
            assert(self.2.shrinks_to(g2));
            assert(self.3.shrinks_to(g3));
            assert(self.4.shrinks_to(g4));
            assert(self.5.shrinks_to(g5));
        }
        out
    }
}

impl<A: Arbitrary + Clone, B: Arbitrary + Clone, C: Arbitrary + Clone, D: Arbitrary + Clone, E: Arbitrary + Clone, F: Arbitrary + Clone, G: Arbitrary + Clone> Arbitrary for (A, B, C, D, E, F, G) {
    open spec fn shrinks_to(&self, r: Seq<(A, B, C, D, E, F, G)>) -> bool {
        exists|s0: Seq<A>, s1: Seq<B>, s2: Seq<C>, s3: Seq<D>, s4: Seq<E>, s5: Seq<F>, s6: Seq<G>|
            {
                &&& self.0.shrinks_to(s0)
                &&& self.1.shrinks_to(s1)
                &&& self.2.shrinks_to(s2)
                &&& self.3.shrinks_to(s3)
                &&& self.4.shrinks_to(s4)
                &&& self.5.shrinks_to(s5)
                &&& self.6.shrinks_to(s6)
                &&& r.len() == s0.len() + s1.len() + s2.len() + s3.len() + s4.len() + s5.len() + s6.len()
                &&& forall|k: int| 0 <= k < s0.len() ==> (#[trigger] r[0 + k]).0 == s0[k] && cloned(self.1, r[0 + k].1) && cloned(self.2, r[0 + k].2) && cloned(self.3, r[0 + k].3) && cloned(self.4, r[0 + k].4) && cloned(self.5, r[0 + k].5) && cloned(self.6, r[0 + k].6)
                &&& forall|k: int| 0 <= k < s1.len() ==> (#[trigger] r[s0.len() + k]).1 == s1[k] && cloned(self.0, r[s0.len() + k].0) && cloned(self.2, r[s0.len() + k].2) && cloned(self.3, r[s0.len() + k].3) && cloned(self.4, r[s0.len() + k].4) && cloned(self.5, r[s0.len() + k].5) && cloned(self.6, r[s0.len() + k].6)
                &&& forall|k: int| 0 <= k < s2.len() ==> (#[trigger] r[s0.len() + s1.len() + k]).2 == s2[k] && cloned(self.0, r[s0.len() + s1.len() + k].0) && cloned(self.1, r[s0.len() + s1.len() + k].1) && cloned(self.3, r[s0.len() + s1.len() + k].3) && cloned(self.4, r[s0.len() + s1.len() + k].4) && cloned(self.5, r[s0.len() + s1.len() + k].5) && cloned(self.6, r[s0.len() + s1.len() + k].6)
                &&& forall|k: int| 0 <= k < s3.len() ==> (#[trigger] r[s0.len() + s1.len() + s2.len() + k]).3 == s3[k] && cloned(self.0, r[s0.len() + s1.len() + s2.len() + k].0) && cloned(self.1, r[s0.len() + s1.len() + s2.len() + k].1) && cloned(self.2, r[s0.len() + s1.len() + s2.len() + k].2) && cloned(self.4, r[s0.len() + s1.len() + s2.len() + k].4) && cloned(self.5, r[s0.len() + s1.len() + s2.len() + k].5) && cloned(self.6, r[s0.len() + s1.len() + s2.len() + k].6)
                &&& forall|k: int| 0 <= k < s4.len() ==> (#[trigger] r[s0.len() + s1.len() + s2.len() + s3.len() + k]).4 == s4[k] && cloned(self.0, r[s0.len() + s1.len() + s2.len() + s3.len() + k].0) && cloned(self.1, r[s0.len() + s1.len() + s2.len() + s3.len() + k].1) && cloned(self.2, r[s0.len() + s1.len() + s2.len() + s3.len() + k].2) && cloned(self.3, r[s0.len() + s1.len() + s2.len() + s3.len() + k].3) && cloned(self.5, r[s0.len() + s1.len() + s2.len() + s3.len() + k].5) && cloned(self.6, r[s0.len() + s1.len() + s2.len() + s3.len() + k].6)
                &&& forall|k: int| 0 <= k < s5.len() ==> (#[trigger] r[s0.len() + s1.len() + s2.len() + s3.len() + s4.len() + k]).5 == s5[k] && cloned(self.0, r[s0.len() + s1.len() + s2.len() + s3.len() + s4.len() + k].0) && cloned(self.1, r[s0.len() + s1.len() + s2.len() + s3.len() + s4.len() + k].1) && cloned(self.2, r[s0.len() + s1.len() + s2.len() + s3.len() + s4.len() + k].2) && cloned(self.3, r[s0.len() + s1.len() + s2.len() + s3.len() + s4.len() + k].3) && cloned(self.4, r[s0.len() + s1.len() + s2.len() + s3.len() + s4.len() + k].4) && cloned(self.6, r[s0.len() + s1.len() + s2.len() + s3.len() + s4.len() + k].6)
                &&& forall|k: int| 0 <= k < s6.len() ==> (#[trigger] r[s0.len() + s1.len() + s2.len() + s3.len() + s4.len() + s5.len() + k]).6 == s6[k] && cloned(self.0, r[s0.len() + s1.len() + s2.len() + s3.len() + s4.len() + s5.len() + k].0) && cloned(self.1, r[s0.len() + s1.len() + s2.len() + s3.len() + s4.len() + s5.len() + k].1) && cloned(self.2, r[s0.len() + s1.len() + s2.len() + s3.len() + s4.len() + s5.len() + k].2) && cloned(self.3, r[s0.len() + s1.len() + s2.len() + s3.len() + s4.len() + s5.len() + k].3) && cloned(self.4, r[s0.len() + s1.len() + s2.len() + s3.len() + s4.len() + s5.len() + k].4) && cloned(self.5, r[s0.len() + s1.len() + s2.len() + s3.len() + s4.len() + s5.len() + k].5)
            }
    }

    /// Each component generated in order.
    /// The components generated in turn, each starting where the one
    /// before left the generator.
    open spec fn arbitrary_from(before: Stream, after: Stream, size: usize, v: (A, B, C, D, E, F, G)) -> bool {
        exists|m1: Stream, m2: Stream, m3: Stream, m4: Stream, m5: Stream, m6: Stream|
            #![trigger A::arbitrary_from(before, m1, size, v.0), B::arbitrary_from(m1, m2, size, v.1), C::arbitrary_from(m2, m3, size, v.2), D::arbitrary_from(m3, m4, size, v.3), E::arbitrary_from(m4, m5, size, v.4), F::arbitrary_from(m5, m6, size, v.5), G::arbitrary_from(m6, after, size, v.6)]
            A::arbitrary_from(before, m1, size, v.0)
            && B::arbitrary_from(m1, m2, size, v.1)
            && C::arbitrary_from(m2, m3, size, v.2)
            && D::arbitrary_from(m3, m4, size, v.3)
            && E::arbitrary_from(m4, m5, size, v.4)
            && F::arbitrary_from(m5, m6, size, v.5)
            && G::arbitrary_from(m6, after, size, v.6)
    }

    fn arbitrary<R: Rng>(rng: &mut R, size: usize) -> (r: (A, B, C, D, E, F, G)) {
        let ghost s0 = *rng;
        let v0 = A::arbitrary(rng, size);
        let ghost s1 = *rng;
        let v1 = B::arbitrary(rng, size);
        let ghost s2 = *rng;
        let v2 = C::arbitrary(rng, size);
        let ghost s3 = *rng;
        let v3 = D::arbitrary(rng, size);
        let ghost s4 = *rng;
        let v4 = E::arbitrary(rng, size);
        let ghost s5 = *rng;
        let v5 = F::arbitrary(rng, size);
        let ghost s6 = *rng;
        let v6 = G::arbitrary(rng, size);
        let ghost s7 = *rng;
        let r = (v0, v1, v2, v3, v4, v5, v6);
        assert(A::arbitrary_from(outputs(s0), outputs(s1), size, r.0) && B::arbitrary_from(outputs(s1), outputs(s2), size, r.1) && C::arbitrary_from(outputs(s2), outputs(s3), size, r.2) && D::arbitrary_from(outputs(s3), outputs(s4), size, r.3) && E::arbitrary_from(outputs(s4), outputs(s5), size, r.4) && F::arbitrary_from(outputs(s5), outputs(s6), size, r.5) && G::arbitrary_from(outputs(s6), outputs(s7), size, r.6));
        r
    }

    /// Each component's candidates in turn, the other components cloned.
    fn shrink(&self) -> (r: Vec<(A, B, C, D, E, F, G)>) {
        let mut out: Vec<(A, B, C, D, E, F, G)> = Vec::new();
        let mut c0 = self.0.shrink();
        let ghost g0 = c0@;
        assert(g0.len() == c0.len());
        let mut k0: usize = 0;
        while c0.len() > 0
            invariant
                k0 <= g0.len(),
                g0.len() <= usize::MAX,
                c0@ == g0.skip(k0 as int),
                out@.len() == 0 + k0,
                forall|q: int| 0 <= q < k0 ==> (#[trigger] out@[0 + q]).0 == g0[q] && cloned(self.1, out@[0 + q].1) && cloned(self.2, out@[0 + q].2) && cloned(self.3, out@[0 + q].3) && cloned(self.4, out@[0 + q].4) && cloned(self.5, out@[0 + q].5) && cloned(self.6, out@[0 + q].6),
            decreases c0@.len(),
        {
            let c = c0.remove(0);
            assert(c == g0[k0 as int]);
            assert(c0@ == g0.skip(k0 + 1));
            let ghost before = out@;
            out.push((c, self.1.clone(), self.2.clone(), self.3.clone(), self.4.clone(), self.5.clone(), self.6.clone()));
            assert forall|q: int| 0 <= q < k0 + 1 implies (#[trigger] out@[0 + q]).0 == g0[q] && cloned(self.1, out@[0 + q].1) && cloned(self.2, out@[0 + q].2) && cloned(self.3, out@[0 + q].3) && cloned(self.4, out@[0 + q].4) && cloned(self.5, out@[0 + q].5) && cloned(self.6, out@[0 + q].6) by {
                if q < k0 {
                    assert(out@[0 + q] == before[0 + q]);
                }
            }
            k0 = k0 + 1;
        }
        let mut c1 = self.1.shrink();
        let ghost g1 = c1@;
        assert(g1.len() == c1.len());
        let mut k1: usize = 0;
        while c1.len() > 0
            invariant
                k1 <= g1.len(),
                g1.len() <= usize::MAX,
                g0.len() <= usize::MAX,
                c1@ == g1.skip(k1 as int),
                out@.len() == g0.len() + k1,
                forall|q: int| 0 <= q < g0.len() ==> (#[trigger] out@[0 + q]).0 == g0[q] && cloned(self.1, out@[0 + q].1) && cloned(self.2, out@[0 + q].2) && cloned(self.3, out@[0 + q].3) && cloned(self.4, out@[0 + q].4) && cloned(self.5, out@[0 + q].5) && cloned(self.6, out@[0 + q].6),
                forall|q: int| 0 <= q < k1 ==> (#[trigger] out@[g0.len() + q]).1 == g1[q] && cloned(self.0, out@[g0.len() + q].0) && cloned(self.2, out@[g0.len() + q].2) && cloned(self.3, out@[g0.len() + q].3) && cloned(self.4, out@[g0.len() + q].4) && cloned(self.5, out@[g0.len() + q].5) && cloned(self.6, out@[g0.len() + q].6),
            decreases c1@.len(),
        {
            let c = c1.remove(0);
            assert(c == g1[k1 as int]);
            assert(c1@ == g1.skip(k1 + 1));
            let ghost before = out@;
            out.push((self.0.clone(), c, self.2.clone(), self.3.clone(), self.4.clone(), self.5.clone(), self.6.clone()));
            assert forall|q: int| 0 <= q < g0.len() implies (#[trigger] out@[0 + q]).0 == g0[q] && cloned(self.1, out@[0 + q].1) && cloned(self.2, out@[0 + q].2) && cloned(self.3, out@[0 + q].3) && cloned(self.4, out@[0 + q].4) && cloned(self.5, out@[0 + q].5) && cloned(self.6, out@[0 + q].6) by {
                assert(out@[0 + q] == before[0 + q]);
            }
            assert forall|q: int| 0 <= q < k1 + 1 implies (#[trigger] out@[g0.len() + q]).1 == g1[q] && cloned(self.0, out@[g0.len() + q].0) && cloned(self.2, out@[g0.len() + q].2) && cloned(self.3, out@[g0.len() + q].3) && cloned(self.4, out@[g0.len() + q].4) && cloned(self.5, out@[g0.len() + q].5) && cloned(self.6, out@[g0.len() + q].6) by {
                if q < k1 {
                    assert(out@[g0.len() + q] == before[g0.len() + q]);
                }
            }
            k1 = k1 + 1;
        }
        let mut c2 = self.2.shrink();
        let ghost g2 = c2@;
        assert(g2.len() == c2.len());
        let mut k2: usize = 0;
        while c2.len() > 0
            invariant
                k2 <= g2.len(),
                g2.len() <= usize::MAX,
                g0.len() <= usize::MAX,
                g1.len() <= usize::MAX,
                c2@ == g2.skip(k2 as int),
                out@.len() == g0.len() + g1.len() + k2,
                forall|q: int| 0 <= q < g0.len() ==> (#[trigger] out@[0 + q]).0 == g0[q] && cloned(self.1, out@[0 + q].1) && cloned(self.2, out@[0 + q].2) && cloned(self.3, out@[0 + q].3) && cloned(self.4, out@[0 + q].4) && cloned(self.5, out@[0 + q].5) && cloned(self.6, out@[0 + q].6),
                forall|q: int| 0 <= q < g1.len() ==> (#[trigger] out@[g0.len() + q]).1 == g1[q] && cloned(self.0, out@[g0.len() + q].0) && cloned(self.2, out@[g0.len() + q].2) && cloned(self.3, out@[g0.len() + q].3) && cloned(self.4, out@[g0.len() + q].4) && cloned(self.5, out@[g0.len() + q].5) && cloned(self.6, out@[g0.len() + q].6),
                forall|q: int| 0 <= q < k2 ==> (#[trigger] out@[g0.len() + g1.len() + q]).2 == g2[q] && cloned(self.0, out@[g0.len() + g1.len() + q].0) && cloned(self.1, out@[g0.len() + g1.len() + q].1) && cloned(self.3, out@[g0.len() + g1.len() + q].3) && cloned(self.4, out@[g0.len() + g1.len() + q].4) && cloned(self.5, out@[g0.len() + g1.len() + q].5) && cloned(self.6, out@[g0.len() + g1.len() + q].6),
            decreases c2@.len(),
        {
            let c = c2.remove(0);
            assert(c == g2[k2 as int]);
            assert(c2@ == g2.skip(k2 + 1));
            let ghost before = out@;
            out.push((self.0.clone(), self.1.clone(), c, self.3.clone(), self.4.clone(), self.5.clone(), self.6.clone()));
            assert forall|q: int| 0 <= q < g0.len() implies (#[trigger] out@[0 + q]).0 == g0[q] && cloned(self.1, out@[0 + q].1) && cloned(self.2, out@[0 + q].2) && cloned(self.3, out@[0 + q].3) && cloned(self.4, out@[0 + q].4) && cloned(self.5, out@[0 + q].5) && cloned(self.6, out@[0 + q].6) by {
                assert(out@[0 + q] == before[0 + q]);
            }
            assert forall|q: int| 0 <= q < g1.len() implies (#[trigger] out@[g0.len() + q]).1 == g1[q] && cloned(self.0, out@[g0.len() + q].0) && cloned(self.2, out@[g0.len() + q].2) && cloned(self.3, out@[g0.len() + q].3) && cloned(self.4, out@[g0.len() + q].4) && cloned(self.5, out@[g0.len() + q].5) && cloned(self.6, out@[g0.len() + q].6) by {
                assert(out@[g0.len() + q] == before[g0.len() + q]);
            }
            assert forall|q: int| 0 <= q < k2 + 1 implies (#[trigger] out@[g0.len() + g1.len() + q]).2 == g2[q] && cloned(self.0, out@[g0.len() + g1.len() + q].0) && cloned(self.1, out@[g0.len() + g1.len() + q].1) && cloned(self.3, out@[g0.len() + g1.len() + q].3) && cloned(self.4, out@[g0.len() + g1.len() + q].4) && cloned(self.5, out@[g0.len() + g1.len() + q].5) && cloned(self.6, out@[g0.len() + g1.len() + q].6) by {
                if q < k2 {
                    assert(out@[g0.len() + g1.len() + q] == before[g0.len() + g1.len() + q]);
                }
            }
            k2 = k2 + 1;
        }
        let mut c3 = self.3.shrink();
        let ghost g3 = c3@;
        assert(g3.len() == c3.len());
        let mut k3: usize = 0;
        while c3.len() > 0
            invariant
                k3 <= g3.len(),
                g3.len() <= usize::MAX,
                g0.len() <= usize::MAX,
                g1.len() <= usize::MAX,
                g2.len() <= usize::MAX,
                c3@ == g3.skip(k3 as int),
                out@.len() == g0.len() + g1.len() + g2.len() + k3,
                forall|q: int| 0 <= q < g0.len() ==> (#[trigger] out@[0 + q]).0 == g0[q] && cloned(self.1, out@[0 + q].1) && cloned(self.2, out@[0 + q].2) && cloned(self.3, out@[0 + q].3) && cloned(self.4, out@[0 + q].4) && cloned(self.5, out@[0 + q].5) && cloned(self.6, out@[0 + q].6),
                forall|q: int| 0 <= q < g1.len() ==> (#[trigger] out@[g0.len() + q]).1 == g1[q] && cloned(self.0, out@[g0.len() + q].0) && cloned(self.2, out@[g0.len() + q].2) && cloned(self.3, out@[g0.len() + q].3) && cloned(self.4, out@[g0.len() + q].4) && cloned(self.5, out@[g0.len() + q].5) && cloned(self.6, out@[g0.len() + q].6),
                forall|q: int| 0 <= q < g2.len() ==> (#[trigger] out@[g0.len() + g1.len() + q]).2 == g2[q] && cloned(self.0, out@[g0.len() + g1.len() + q].0) && cloned(self.1, out@[g0.len() + g1.len() + q].1) && cloned(self.3, out@[g0.len() + g1.len() + q].3) && cloned(self.4, out@[g0.len() + g1.len() + q].4) && cloned(self.5, out@[g0.len() + g1.len() + q].5) && cloned(self.6, out@[g0.len() + g1.len() + q].6),
                forall|q: int| 0 <= q < k3 ==> (#[trigger] out@[g0.len() + g1.len() + g2.len() + q]).3 == g3[q] && cloned(self.0, out@[g0.len() + g1.len() + g2.len() + q].0) && cloned(self.1, out@[g0.len() + g1.len() + g2.len() + q].1) && cloned(self.2, out@[g0.len() + g1.len() + g2.len() + q].2) && cloned(self.4, out@[g0.len() + g1.len() + g2.len() + q].4) && cloned(self.5, out@[g0.len() + g1.len() + g2.len() + q].5) && cloned(self.6, out@[g0.len() + g1.len() + g2.len() + q].6),
            decreases c3@.len(),
        {
            let c = c3.remove(0);
            assert(c == g3[k3 as int]);
            assert(c3@ == g3.skip(k3 + 1));
            let ghost before = out@;
            out.push((self.0.clone(), self.1.clone(), self.2.clone(), c, self.4.clone(), self.5.clone(), self.6.clone()));
            assert forall|q: int| 0 <= q < g0.len() implies (#[trigger] out@[0 + q]).0 == g0[q] && cloned(self.1, out@[0 + q].1) && cloned(self.2, out@[0 + q].2) && cloned(self.3, out@[0 + q].3) && cloned(self.4, out@[0 + q].4) && cloned(self.5, out@[0 + q].5) && cloned(self.6, out@[0 + q].6) by {
                assert(out@[0 + q] == before[0 + q]);
            }
            assert forall|q: int| 0 <= q < g1.len() implies (#[trigger] out@[g0.len() + q]).1 == g1[q] && cloned(self.0, out@[g0.len() + q].0) && cloned(self.2, out@[g0.len() + q].2) && cloned(self.3, out@[g0.len() + q].3) && cloned(self.4, out@[g0.len() + q].4) && cloned(self.5, out@[g0.len() + q].5) && cloned(self.6, out@[g0.len() + q].6) by {
                assert(out@[g0.len() + q] == before[g0.len() + q]);
            }
            assert forall|q: int| 0 <= q < g2.len() implies (#[trigger] out@[g0.len() + g1.len() + q]).2 == g2[q] && cloned(self.0, out@[g0.len() + g1.len() + q].0) && cloned(self.1, out@[g0.len() + g1.len() + q].1) && cloned(self.3, out@[g0.len() + g1.len() + q].3) && cloned(self.4, out@[g0.len() + g1.len() + q].4) && cloned(self.5, out@[g0.len() + g1.len() + q].5) && cloned(self.6, out@[g0.len() + g1.len() + q].6) by {
                assert(out@[g0.len() + g1.len() + q] == before[g0.len() + g1.len() + q]);
            }
            assert forall|q: int| 0 <= q < k3 + 1 implies (#[trigger] out@[g0.len() + g1.len() + g2.len() + q]).3 == g3[q] && cloned(self.0, out@[g0.len() + g1.len() + g2.len() + q].0) && cloned(self.1, out@[g0.len() + g1.len() + g2.len() + q].1) && cloned(self.2, out@[g0.len() + g1.len() + g2.len() + q].2) && cloned(self.4, out@[g0.len() + g1.len() + g2.len() + q].4) && cloned(self.5, out@[g0.len() + g1.len() + g2.len() + q].5) && cloned(self.6, out@[g0.len() + g1.len() + g2.len() + q].6) by {
                if q < k3 {
                    assert(out@[g0.len() + g1.len() + g2.len() + q] == before[g0.len() + g1.len() + g2.len() + q]);
                }
            }
            k3 = k3 + 1;
        }
        let mut c4 = self.4.shrink();
        let ghost g4 = c4@;
        assert(g4.len() == c4.len());
        let mut k4: usize = 0;
        while c4.len() > 0
            invariant
                k4 <= g4.len(),
                g4.len() <= usize::MAX,
                g0.len() <= usize::MAX,
                g1.len() <= usize::MAX,
                g2.len() <= usize::MAX,
                g3.len() <= usize::MAX,
                c4@ == g4.skip(k4 as int),
                out@.len() == g0.len() + g1.len() + g2.len() + g3.len() + k4,
                forall|q: int| 0 <= q < g0.len() ==> (#[trigger] out@[0 + q]).0 == g0[q] && cloned(self.1, out@[0 + q].1) && cloned(self.2, out@[0 + q].2) && cloned(self.3, out@[0 + q].3) && cloned(self.4, out@[0 + q].4) && cloned(self.5, out@[0 + q].5) && cloned(self.6, out@[0 + q].6),
                forall|q: int| 0 <= q < g1.len() ==> (#[trigger] out@[g0.len() + q]).1 == g1[q] && cloned(self.0, out@[g0.len() + q].0) && cloned(self.2, out@[g0.len() + q].2) && cloned(self.3, out@[g0.len() + q].3) && cloned(self.4, out@[g0.len() + q].4) && cloned(self.5, out@[g0.len() + q].5) && cloned(self.6, out@[g0.len() + q].6),
                forall|q: int| 0 <= q < g2.len() ==> (#[trigger] out@[g0.len() + g1.len() + q]).2 == g2[q] && cloned(self.0, out@[g0.len() + g1.len() + q].0) && cloned(self.1, out@[g0.len() + g1.len() + q].1) && cloned(self.3, out@[g0.len() + g1.len() + q].3) && cloned(self.4, out@[g0.len() + g1.len() + q].4) && cloned(self.5, out@[g0.len() + g1.len() + q].5) && cloned(self.6, out@[g0.len() + g1.len() + q].6),
                forall|q: int| 0 <= q < g3.len() ==> (#[trigger] out@[g0.len() + g1.len() + g2.len() + q]).3 == g3[q] && cloned(self.0, out@[g0.len() + g1.len() + g2.len() + q].0) && cloned(self.1, out@[g0.len() + g1.len() + g2.len() + q].1) && cloned(self.2, out@[g0.len() + g1.len() + g2.len() + q].2) && cloned(self.4, out@[g0.len() + g1.len() + g2.len() + q].4) && cloned(self.5, out@[g0.len() + g1.len() + g2.len() + q].5) && cloned(self.6, out@[g0.len() + g1.len() + g2.len() + q].6),
                forall|q: int| 0 <= q < k4 ==> (#[trigger] out@[g0.len() + g1.len() + g2.len() + g3.len() + q]).4 == g4[q] && cloned(self.0, out@[g0.len() + g1.len() + g2.len() + g3.len() + q].0) && cloned(self.1, out@[g0.len() + g1.len() + g2.len() + g3.len() + q].1) && cloned(self.2, out@[g0.len() + g1.len() + g2.len() + g3.len() + q].2) && cloned(self.3, out@[g0.len() + g1.len() + g2.len() + g3.len() + q].3) && cloned(self.5, out@[g0.len() + g1.len() + g2.len() + g3.len() + q].5) && cloned(self.6, out@[g0.len() + g1.len() + g2.len() + g3.len() + q].6),
            decreases c4@.len(),
        {
            let c = c4.remove(0);
            assert(c == g4[k4 as int]);
            assert(c4@ == g4.skip(k4 + 1));
            let ghost before = out@;
            out.push((self.0.clone(), self.1.clone(), self.2.clone(), self.3.clone(), c, self.5.clone(), self.6.clone()));
            assert forall|q: int| 0 <= q < g0.len() implies (#[trigger] out@[0 + q]).0 == g0[q] && cloned(self.1, out@[0 + q].1) && cloned(self.2, out@[0 + q].2) && cloned(self.3, out@[0 + q].3) && cloned(self.4, out@[0 + q].4) && cloned(self.5, out@[0 + q].5) && cloned(self.6, out@[0 + q].6) by {
                assert(out@[0 + q] == before[0 + q]);
            }
            assert forall|q: int| 0 <= q < g1.len() implies (#[trigger] out@[g0.len() + q]).1 == g1[q] && cloned(self.0, out@[g0.len() + q].0) && cloned(self.2, out@[g0.len() + q].2) && cloned(self.3, out@[g0.len() + q].3) && cloned(self.4, out@[g0.len() + q].4) && cloned(self.5, out@[g0.len() + q].5) && cloned(self.6, out@[g0.len() + q].6) by {
                assert(out@[g0.len() + q] == before[g0.len() + q]);
            }
            assert forall|q: int| 0 <= q < g2.len() implies (#[trigger] out@[g0.len() + g1.len() + q]).2 == g2[q] && cloned(self.0, out@[g0.len() + g1.len() + q].0) && cloned(self.1, out@[g0.len() + g1.len() + q].1) && cloned(self.3, out@[g0.len() + g1.len() + q].3) && cloned(self.4, out@[g0.len() + g1.len() + q].4) && cloned(self.5, out@[g0.len() + g1.len() + q].5) && cloned(self.6, out@[g0.len() + g1.len() + q].6) by {
                assert(out@[g0.len() + g1.len() + q] == before[g0.len() + g1.len() + q]);
            }
            assert forall|q: int| 0 <= q < g3.len() implies (#[trigger] out@[g0.len() + g1.len() + g2.len() + q]).3 == g3[q] && cloned(self.0, out@[g0.len() + g1.len() + g2.len() + q].0) && cloned(self.1, out@[g0.len() + g1.len() + g2.len() + q].1) && cloned(self.2, out@[g0.len() + g1.len() + g2.len() + q].2) && cloned(self.4, out@[g0.len() + g1.len() + g2.len() + q].4) && cloned(self.5, out@[g0.len() + g1.len() + g2.len() + q].5) && cloned(self.6, out@[g0.len() + g1.len() + g2.len() + q].6) by {
                assert(out@[g0.len() + g1.len() + g2.len() + q] == before[g0.len() + g1.len() + g2.len() + q]);
            }
            assert forall|q: int| 0 <= q < k4 + 1 implies (#[trigger] out@[g0.len() + g1.len() + g2.len() + g3.len() + q]).4 == g4[q] && cloned(self.0, out@[g0.len() + g1.len() + g2.len() + g3.len() + q].0) && cloned(self.1, out@[g0.len() + g1.len() + g2.len() + g3.len() + q].1) && cloned(self.2, out@[g0.len() + g1.len() + g2.len() + g3.len() + q].2) && cloned(self.3, out@[g0.len() + g1.len() + g2.len() + g3.len() + q].3) && cloned(self.5, out@[g0.len() + g1.len() + g2.len() + g3.len() + q].5) && cloned(self.6, out@[g0.len() + g1.len() + g2.len() + g3.len() + q].6) by {
                if q < k4 {
                    assert(out@[g0.len() + g1.len() + g2.len() + g3.len() + q] == before[g0.len() + g1.len() + g2.len() + g3.len() + q]);
                }
            }
            k4 = k4 + 1;
        }
        let mut c5 = self.5.shrink();
        let ghost g5 = c5@;
        assert(g5.len() == c5.len());
        let mut k5: usize = 0;
        while c5.len() > 0
            invariant
                k5 <= g5.len(),
                g5.len() <= usize::MAX,
                g0.len() <= usize::MAX,
                g1.len() <= usize::MAX,
                g2.len() <= usize::MAX,
                g3.len() <= usize::MAX,
                g4.len() <= usize::MAX,
                c5@ == g5.skip(k5 as int),
                out@.len() == g0.len() + g1.len() + g2.len() + g3.len() + g4.len() + k5,
                forall|q: int| 0 <= q < g0.len() ==> (#[trigger] out@[0 + q]).0 == g0[q] && cloned(self.1, out@[0 + q].1) && cloned(self.2, out@[0 + q].2) && cloned(self.3, out@[0 + q].3) && cloned(self.4, out@[0 + q].4) && cloned(self.5, out@[0 + q].5) && cloned(self.6, out@[0 + q].6),
                forall|q: int| 0 <= q < g1.len() ==> (#[trigger] out@[g0.len() + q]).1 == g1[q] && cloned(self.0, out@[g0.len() + q].0) && cloned(self.2, out@[g0.len() + q].2) && cloned(self.3, out@[g0.len() + q].3) && cloned(self.4, out@[g0.len() + q].4) && cloned(self.5, out@[g0.len() + q].5) && cloned(self.6, out@[g0.len() + q].6),
                forall|q: int| 0 <= q < g2.len() ==> (#[trigger] out@[g0.len() + g1.len() + q]).2 == g2[q] && cloned(self.0, out@[g0.len() + g1.len() + q].0) && cloned(self.1, out@[g0.len() + g1.len() + q].1) && cloned(self.3, out@[g0.len() + g1.len() + q].3) && cloned(self.4, out@[g0.len() + g1.len() + q].4) && cloned(self.5, out@[g0.len() + g1.len() + q].5) && cloned(self.6, out@[g0.len() + g1.len() + q].6),
                forall|q: int| 0 <= q < g3.len() ==> (#[trigger] out@[g0.len() + g1.len() + g2.len() + q]).3 == g3[q] && cloned(self.0, out@[g0.len() + g1.len() + g2.len() + q].0) && cloned(self.1, out@[g0.len() + g1.len() + g2.len() + q].1) && cloned(self.2, out@[g0.len() + g1.len() + g2.len() + q].2) && cloned(self.4, out@[g0.len() + g1.len() + g2.len() + q].4) && cloned(self.5, out@[g0.len() + g1.len() + g2.len() + q].5) && cloned(self.6, out@[g0.len() + g1.len() + g2.len() + q].6),
                forall|q: int| 0 <= q < g4.len() ==> (#[trigger] out@[g0.len() + g1.len() + g2.len() + g3.len() + q]).4 == g4[q] && cloned(self.0, out@[g0.len() + g1.len() + g2.len() + g3.len() + q].0) && cloned(self.1, out@[g0.len() + g1.len() + g2.len() + g3.len() + q].1) && cloned(self.2, out@[g0.len() + g1.len() + g2.len() + g3.len() + q].2) && cloned(self.3, out@[g0.len() + g1.len() + g2.len() + g3.len() + q].3) && cloned(self.5, out@[g0.len() + g1.len() + g2.len() + g3.len() + q].5) && cloned(self.6, out@[g0.len() + g1.len() + g2.len() + g3.len() + q].6),
                forall|q: int| 0 <= q < k5 ==> (#[trigger] out@[g0.len() + g1.len() + g2.len() + g3.len() + g4.len() + q]).5 == g5[q] && cloned(self.0, out@[g0.len() + g1.len() + g2.len() + g3.len() + g4.len() + q].0) && cloned(self.1, out@[g0.len() + g1.len() + g2.len() + g3.len() + g4.len() + q].1) && cloned(self.2, out@[g0.len() + g1.len() + g2.len() + g3.len() + g4.len() + q].2) && cloned(self.3, out@[g0.len() + g1.len() + g2.len() + g3.len() + g4.len() + q].3) && cloned(self.4, out@[g0.len() + g1.len() + g2.len() + g3.len() + g4.len() + q].4) && cloned(self.6, out@[g0.len() + g1.len() + g2.len() + g3.len() + g4.len() + q].6),
            decreases c5@.len(),
        {
            let c = c5.remove(0);
            assert(c == g5[k5 as int]);
            assert(c5@ == g5.skip(k5 + 1));
            let ghost before = out@;
            out.push((self.0.clone(), self.1.clone(), self.2.clone(), self.3.clone(), self.4.clone(), c, self.6.clone()));
            assert forall|q: int| 0 <= q < g0.len() implies (#[trigger] out@[0 + q]).0 == g0[q] && cloned(self.1, out@[0 + q].1) && cloned(self.2, out@[0 + q].2) && cloned(self.3, out@[0 + q].3) && cloned(self.4, out@[0 + q].4) && cloned(self.5, out@[0 + q].5) && cloned(self.6, out@[0 + q].6) by {
                assert(out@[0 + q] == before[0 + q]);
            }
            assert forall|q: int| 0 <= q < g1.len() implies (#[trigger] out@[g0.len() + q]).1 == g1[q] && cloned(self.0, out@[g0.len() + q].0) && cloned(self.2, out@[g0.len() + q].2) && cloned(self.3, out@[g0.len() + q].3) && cloned(self.4, out@[g0.len() + q].4) && cloned(self.5, out@[g0.len() + q].5) && cloned(self.6, out@[g0.len() + q].6) by {
                assert(out@[g0.len() + q] == before[g0.len() + q]);
            }
            assert forall|q: int| 0 <= q < g2.len() implies (#[trigger] out@[g0.len() + g1.len() + q]).2 == g2[q] && cloned(self.0, out@[g0.len() + g1.len() + q].0) && cloned(self.1, out@[g0.len() + g1.len() + q].1) && cloned(self.3, out@[g0.len() + g1.len() + q].3) && cloned(self.4, out@[g0.len() + g1.len() + q].4) && cloned(self.5, out@[g0.len() + g1.len() + q].5) && cloned(self.6, out@[g0.len() + g1.len() + q].6) by {
                assert(out@[g0.len() + g1.len() + q] == before[g0.len() + g1.len() + q]);
            }
            assert forall|q: int| 0 <= q < g3.len() implies (#[trigger] out@[g0.len() + g1.len() + g2.len() + q]).3 == g3[q] && cloned(self.0, out@[g0.len() + g1.len() + g2.len() + q].0) && cloned(self.1, out@[g0.len() + g1.len() + g2.len() + q].1) && cloned(self.2, out@[g0.len() + g1.len() + g2.len() + q].2) && cloned(self.4, out@[g0.len() + g1.len() + g2.len() + q].4) && cloned(self.5, out@[g0.len() + g1.len() + g2.len() + q].5) && cloned(self.6, out@[g0.len() + g1.len() + g2.len() + q].6) by {
                assert(out@[g0.len() + g1.len() + g2.len() + q] == before[g0.len() + g1.len() + g2.len() + q]);
            }
            assert forall|q: int| 0 <= q < g4.len() implies (#[trigger] out@[g0.len() + g1.len() + g2.len() + g3.len() + q]).4 == g4[q] && cloned(self.0, out@[g0.len() + g1.len() + g2.len() + g3.len() + q].0) && cloned(self.1, out@[g0.len() + g1.len() + g2.len() + g3.len() + q].1) && cloned(self.2, out@[g0.len() + g1.len() + g2.len() + g3.len() + q].2) && cloned(self.3, out@[g0.len() + g1.len() + g2.len() + g3.len() + q].3) && cloned(self.5, out@[g0.len() + g1.len() + g2.len() + g3.len() + q].5) && cloned(self.6, out@[g0.len() + g1.len() + g2.len() + g3.len() + q].6) by {
                assert(out@[g0.len() + g1.len() + g2.len() + g3.len() + q] == before[g0.len() + g1.len() + g2.len() + g3.len() + q]);
            }
            assert forall|q: int| 0 <= q < k5 + 1 implies (#[trigger] out@[g0.len() + g1.len() + g2.len() + g3.len() + g4.len() + q]).5 == g5[q] && cloned(self.0, out@[g0.len() + g1.len() + g2.len() + g3.len() + g4.len() + q].0) && cloned(self.1, out@[g0.len() + g1.len() + g2.len() + g3.len() + g4.len() + q].1) && cloned(self.2, out@[g0.len() + g1.len() + g2.len() + g3.len() + g4.len() + q].2) && cloned(self.3, out@[g0.len() + g1.len() + g2.len() + g3.len() + g4.len() + q].3) && cloned(self.4, out@[g0.len() + g1.len() + g2.len() + g3.len() + g4.len() + q].4) && cloned(self.6, out@[g0.len() + g1.len() + g2.len() + g3.len() + g4.len() + q].6) by {
                if q < k5 {
                    assert(out@[g0.len() + g1.len() + g2.len() + g3.len() + g4.len() + q] == before[g0.len() + g1.len() + g2.len() + g3.len() + g4.len() + q]);
                }
            }
            k5 = k5 + 1;
        }
        let mut c6 = self.6.shrink();
        let ghost g6 = c6@;
        assert(g6.len() == c6.len());
        let mut k6: usize = 0;
        while c6.len() > 0
            invariant
                k6 <= g6.len(),
                g6.len() <= usize::MAX,
                g0.len() <= usize::MAX,
                g1.len() <= usize::MAX,
                g2.len() <= usize::MAX,
                g3.len() <= usize::MAX,
                g4.len() <= usize::MAX,
                g5.len() <= usize::MAX,
                c6@ == g6.skip(k6 as int),
                out@.len() == g0.len() + g1.len() + g2.len() + g3.len() + g4.len() + g5.len() + k6,
                forall|q: int| 0 <= q < g0.len() ==> (#[trigger] out@[0 + q]).0 == g0[q] && cloned(self.1, out@[0 + q].1) && cloned(self.2, out@[0 + q].2) && cloned(self.3, out@[0 + q].3) && cloned(self.4, out@[0 + q].4) && cloned(self.5, out@[0 + q].5) && cloned(self.6, out@[0 + q].6),
                forall|q: int| 0 <= q < g1.len() ==> (#[trigger] out@[g0.len() + q]).1 == g1[q] && cloned(self.0, out@[g0.len() + q].0) && cloned(self.2, out@[g0.len() + q].2) && cloned(self.3, out@[g0.len() + q].3) && cloned(self.4, out@[g0.len() + q].4) && cloned(self.5, out@[g0.len() + q].5) && cloned(self.6, out@[g0.len() + q].6),
                forall|q: int| 0 <= q < g2.len() ==> (#[trigger] out@[g0.len() + g1.len() + q]).2 == g2[q] && cloned(self.0, out@[g0.len() + g1.len() + q].0) && cloned(self.1, out@[g0.len() + g1.len() + q].1) && cloned(self.3, out@[g0.len() + g1.len() + q].3) && cloned(self.4, out@[g0.len() + g1.len() + q].4) && cloned(self.5, out@[g0.len() + g1.len() + q].5) && cloned(self.6, out@[g0.len() + g1.len() + q].6),
                forall|q: int| 0 <= q < g3.len() ==> (#[trigger] out@[g0.len() + g1.len() + g2.len() + q]).3 == g3[q] && cloned(self.0, out@[g0.len() + g1.len() + g2.len() + q].0) && cloned(self.1, out@[g0.len() + g1.len() + g2.len() + q].1) && cloned(self.2, out@[g0.len() + g1.len() + g2.len() + q].2) && cloned(self.4, out@[g0.len() + g1.len() + g2.len() + q].4) && cloned(self.5, out@[g0.len() + g1.len() + g2.len() + q].5) && cloned(self.6, out@[g0.len() + g1.len() + g2.len() + q].6),
                forall|q: int| 0 <= q < g4.len() ==> (#[trigger] out@[g0.len() + g1.len() + g2.len() + g3.len() + q]).4 == g4[q] && cloned(self.0, out@[g0.len() + g1.len() + g2.len() + g3.len() + q].0) && cloned(self.1, out@[g0.len() + g1.len() + g2.len() + g3.len() + q].1) && cloned(self.2, out@[g0.len() + g1.len() + g2.len() + g3.len() + q].2) && cloned(self.3, out@[g0.len() + g1.len() + g2.len() + g3.len() + q].3) && cloned(self.5, out@[g0.len() + g1.len() + g2.len() + g3.len() + q].5) && cloned(self.6, out@[g0.len() + g1.len() + g2.len() + g3.len() + q].6),
                forall|q: int| 0 <= q < g5.len() ==> (#[trigger] out@[g0.len() + g1.len() + g2.len() + g3.len() + g4.len() + q]).5 == g5[q] && cloned(self.0, out@[g0.len() + g1.len() + g2.len() + g3.len() + g4.len() + q].0) && cloned(self.1, out@[g0.len() + g1.len() + g2.len() + g3.len() + g4.len() + q].1) && cloned(self.2, out@[g0.len() + g1.len() + g2.len() + g3.len() + g4.len() + q].2) && cloned(self.3, out@[g0.len() + g1.len() + g2.len() + g3.len() + g4.len() + q].3) && cloned(self.4, out@[g0.len() + g1.len() + g2.len() + g3.len() + g4.len() + q].4) && cloned(self.6, out@[g0.len() + g1.len() + g2.len() + g3.len() + g4.len() + q].6),
                forall|q: int| 0 <= q < k6 ==> (#[trigger] out@[g0.len() + g1.len() + g2.len() + g3.len() + g4.len() + g5.len() + q]).6 == g6[q] && cloned(self.0, out@[g0.len() + g1.len() + g2.len() + g3.len() + g4.len() + g5.len() + q].0) && cloned(self.1, out@[g0.len() + g1.len() + g2.len() + g3.len() + g4.len() + g5.len() + q].1) && cloned(self.2, out@[g0.len() + g1.len() + g2.len() + g3.len() + g4.len() + g5.len() + q].2) && cloned(self.3, out@[g0.len() + g1.len() + g2.len() + g3.len() + g4.len() + g5.len() + q].3) && cloned(self.4, out@[g0.len() + g1.len() + g2.len() + g3.len() + g4.len() + g5.len() + q].4) && cloned(self.5, out@[g0.len() + g1.len() + g2.len() + g3.len() + g4.len() + g5.len() + q].5),
            decreases c6@.len(),
        {
            let c = c6.remove(0);
            assert(c == g6[k6 as int]);
            assert(c6@ == g6.skip(k6 + 1));
            let ghost before = out@;
            out.push((self.0.clone(), self.1.clone(), self.2.clone(), self.3.clone(), self.4.clone(), self.5.clone(), c));
            assert forall|q: int| 0 <= q < g0.len() implies (#[trigger] out@[0 + q]).0 == g0[q] && cloned(self.1, out@[0 + q].1) && cloned(self.2, out@[0 + q].2) && cloned(self.3, out@[0 + q].3) && cloned(self.4, out@[0 + q].4) && cloned(self.5, out@[0 + q].5) && cloned(self.6, out@[0 + q].6) by {
                assert(out@[0 + q] == before[0 + q]);
            }
            assert forall|q: int| 0 <= q < g1.len() implies (#[trigger] out@[g0.len() + q]).1 == g1[q] && cloned(self.0, out@[g0.len() + q].0) && cloned(self.2, out@[g0.len() + q].2) && cloned(self.3, out@[g0.len() + q].3) && cloned(self.4, out@[g0.len() + q].4) && cloned(self.5, out@[g0.len() + q].5) && cloned(self.6, out@[g0.len() + q].6) by {
                assert(out@[g0.len() + q] == before[g0.len() + q]);
            }
            assert forall|q: int| 0 <= q < g2.len() implies (#[trigger] out@[g0.len() + g1.len() + q]).2 == g2[q] && cloned(self.0, out@[g0.len() + g1.len() + q].0) && cloned(self.1, out@[g0.len() + g1.len() + q].1) && cloned(self.3, out@[g0.len() + g1.len() + q].3) && cloned(self.4, out@[g0.len() + g1.len() + q].4) && cloned(self.5, out@[g0.len() + g1.len() + q].5) && cloned(self.6, out@[g0.len() + g1.len() + q].6) by {
                assert(out@[g0.len() + g1.len() + q] == before[g0.len() + g1.len() + q]);
            }
            assert forall|q: int| 0 <= q < g3.len() implies (#[trigger] out@[g0.len() + g1.len() + g2.len() + q]).3 == g3[q] && cloned(self.0, out@[g0.len() + g1.len() + g2.len() + q].0) && cloned(self.1, out@[g0.len() + g1.len() + g2.len() + q].1) && cloned(self.2, out@[g0.len() + g1.len() + g2.len() + q].2) && cloned(self.4, out@[g0.len() + g1.len() + g2.len() + q].4) && cloned(self.5, out@[g0.len() + g1.len() + g2.len() + q].5) && cloned(self.6, out@[g0.len() + g1.len() + g2.len() + q].6) by {
                assert(out@[g0.len() + g1.len() + g2.len() + q] == before[g0.len() + g1.len() + g2.len() + q]);
            }
            assert forall|q: int| 0 <= q < g4.len() implies (#[trigger] out@[g0.len() + g1.len() + g2.len() + g3.len() + q]).4 == g4[q] && cloned(self.0, out@[g0.len() + g1.len() + g2.len() + g3.len() + q].0) && cloned(self.1, out@[g0.len() + g1.len() + g2.len() + g3.len() + q].1) && cloned(self.2, out@[g0.len() + g1.len() + g2.len() + g3.len() + q].2) && cloned(self.3, out@[g0.len() + g1.len() + g2.len() + g3.len() + q].3) && cloned(self.5, out@[g0.len() + g1.len() + g2.len() + g3.len() + q].5) && cloned(self.6, out@[g0.len() + g1.len() + g2.len() + g3.len() + q].6) by {
                assert(out@[g0.len() + g1.len() + g2.len() + g3.len() + q] == before[g0.len() + g1.len() + g2.len() + g3.len() + q]);
            }
            assert forall|q: int| 0 <= q < g5.len() implies (#[trigger] out@[g0.len() + g1.len() + g2.len() + g3.len() + g4.len() + q]).5 == g5[q] && cloned(self.0, out@[g0.len() + g1.len() + g2.len() + g3.len() + g4.len() + q].0) && cloned(self.1, out@[g0.len() + g1.len() + g2.len() + g3.len() + g4.len() + q].1) && cloned(self.2, out@[g0.len() + g1.len() + g2.len() + g3.len() + g4.len() + q].2) && cloned(self.3, out@[g0.len() + g1.len() + g2.len() + g3.len() + g4.len() + q].3) && cloned(self.4, out@[g0.len() + g1.len() + g2.len() + g3.len() + g4.len() + q].4) && cloned(self.6, out@[g0.len() + g1.len() + g2.len() + g3.len() + g4.len() + q].6) by {
                assert(out@[g0.len() + g1.len() + g2.len() + g3.len() + g4.len() + q] == before[g0.len() + g1.len() + g2.len() + g3.len() + g4.len() + q]);
            }
            assert forall|q: int| 0 <= q < k6 + 1 implies (#[trigger] out@[g0.len() + g1.len() + g2.len() + g3.len() + g4.len() + g5.len() + q]).6 == g6[q] && cloned(self.0, out@[g0.len() + g1.len() + g2.len() + g3.len() + g4.len() + g5.len() + q].0) && cloned(self.1, out@[g0.len() + g1.len() + g2.len() + g3.len() + g4.len() + g5.len() + q].1) && cloned(self.2, out@[g0.len() + g1.len() + g2.len() + g3.len() + g4.len() + g5.len() + q].2) && cloned(self.3, out@[g0.len() + g1.len() + g2.len() + g3.len() + g4.len() + g5.len() + q].3) && cloned(self.4, out@[g0.len() + g1.len() + g2.len() + g3.len() + g4.len() + g5.len() + q].4) && cloned(self.5, out@[g0.len() + g1.len() + g2.len() + g3.len() + g4.len() + g5.len() + q].5) by {
                if q < k6 {
                    assert(out@[g0.len() + g1.len() + g2.len() + g3.len() + g4.len() + g5.len() + q] == before[g0.len() + g1.len() + g2.len() + g3.len() + g4.len() + g5.len() + q]);
                }
            }
            k6 = k6 + 1;
        }
        proof {
            assert(self.0.shrinks_to(g0));
            assert(self.1.shrinks_to(g1));
            assert(self.2.shrinks_to(g2));
            assert(self.3.shrinks_to(g3));
            assert(self.4.shrinks_to(g4));
            assert(self.5.shrinks_to(g5));
            assert(self.6.shrinks_to(g6));
        }
        out
    }
}

impl<A: Arbitrary + Clone, B: Arbitrary + Clone, C: Arbitrary + Clone, D: Arbitrary + Clone, E: Arbitrary + Clone, F: Arbitrary + Clone, G: Arbitrary + Clone, H: Arbitrary + Clone> Arbitrary for (A, B, C, D, E, F, G, H) {
    open spec fn shrinks_to(&self, r: Seq<(A, B, C, D, E, F, G, H)>) -> bool {
        exists|s0: Seq<A>, s1: Seq<B>, s2: Seq<C>, s3: Seq<D>, s4: Seq<E>, s5: Seq<F>, s6: Seq<G>, s7: Seq<H>|
            {
                &&& self.0.shrinks_to(s0)
                &&& self.1.shrinks_to(s1)
                &&& self.2.shrinks_to(s2)
                &&& self.3.shrinks_to(s3)
                &&& self.4.shrinks_to(s4)
                &&& self.5.shrinks_to(s5)
                &&& self.6.shrinks_to(s6)
                &&& self.7.shrinks_to(s7)
                &&& r.len() == s0.len() + s1.len() + s2.len() + s3.len() + s4.len() + s5.len() + s6.len() + s7.len()
                &&& forall|k: int| 0 <= k < s0.len() ==> (#[trigger] r[0 + k]).0 == s0[k] && cloned(self.1, r[0 + k].1) && cloned(self.2, r[0 + k].2) && cloned(self.3, r[0 + k].3) && cloned(self.4, r[0 + k].4) && cloned(self.5, r[0 + k].5) && cloned(self.6, r[0 + k].6) && cloned(self.7, r[0 + k].7)
                &&& forall|k: int| 0 <= k < s1.len() ==> (#[trigger] r[s0.len() + k]).1 == s1[k] && cloned(self.0, r[s0.len() + k].0) && cloned(self.2, r[s0.len() + k].2) && cloned(self.3, r[s0.len() + k].3) && cloned(self.4, r[s0.len() + k].4) && cloned(self.5, r[s0.len() + k].5) && cloned(self.6, r[s0.len() + k].6) && cloned(self.7, r[s0.len() + k].7)
                &&& forall|k: int| 0 <= k < s2.len() ==> (#[trigger] r[s0.len() + s1.len() + k]).2 == s2[k] && cloned(self.0, r[s0.len() + s1.len() + k].0) && cloned(self.1, r[s0.len() + s1.len() + k].1) && cloned(self.3, r[s0.len() + s1.len() + k].3) && cloned(self.4, r[s0.len() + s1.len() + k].4) && cloned(self.5, r[s0.len() + s1.len() + k].5) && cloned(self.6, r[s0.len() + s1.len() + k].6) && cloned(self.7, r[s0.len() + s1.len() + k].7)
                &&& forall|k: int| 0 <= k < s3.len() ==> (#[trigger] r[s0.len() + s1.len() + s2.len() + k]).3 == s3[k] && cloned(self.0, r[s0.len() + s1.len() + s2.len() + k].0) && cloned(self.1, r[s0.len() + s1.len() + s2.len() + k].1) && cloned(self.2, r[s0.len() + s1.len() + s2.len() + k].2) && cloned(self.4, r[s0.len() + s1.len() + s2.len() + k].4) && cloned(self.5, r[s0.len() + s1.len() + s2.len() + k].5) && cloned(self.6, r[s0.len() + s1.len() + s2.len() + k].6) && cloned(self.7, r[s0.len() + s1.len() + s2.len() + k].7)
                &&& forall|k: int| 0 <= k < s4.len() ==> (#[trigger] r[s0.len() + s1.len() + s2.len() + s3.len() + k]).4 == s4[k] && cloned(self.0, r[s0.len() + s1.len() + s2.len() + s3.len() + k].0) && cloned(self.1, r[s0.len() + s1.len() + s2.len() + s3.len() + k].1) && cloned(self.2, r[s0.len() + s1.len() + s2.len() + s3.len() + k].2) && cloned(self.3, r[s0.len() + s1.len() + s2.len() + s3.len() + k].3) && cloned(self.5, r[s0.len() + s1.len() + s2.len() + s3.len() + k].5) && cloned(self.6, r[s0.len() + s1.len() + s2.len() + s3.len() + k].6) && cloned(self.7, r[s0.len() + s1.len() + s2.len() + s3.len() + k].7)
                &&& forall|k: int| 0 <= k < s5.len() ==> (#[trigger] r[s0.len() + s1.len() + s2.len() + s3.len() + s4.len() + k]).5 == s5[k] && cloned(self.0, r[s0.len() + s1.len() + s2.len() + s3.len() + s4.len() + k].0) && cloned(self.1, r[s0.len() + s1.len() + s2.len() + s3.len() + s4.len() + k].1) && cloned(self.2, r[s0.len() + s1.len() + s2.len() + s3.len() + s4.len() + k].2) && cloned(self.3, r[s0.len() + s1.len() + s2.len() + s3.len() + s4.len() + k].3) && cloned(self.4, r[s0.len() + s1.len() + s2.len() + s3.len() + s4.len() + k].4) && cloned(self.6, r[s0.len() + s1.len() + s2.len() + s3.len() + s4.len() + k].6) && cloned(self.7, r[s0.len() + s1.len() + s2.len() + s3.len() + s4.len() + k].7)
                &&& forall|k: int| 0 <= k < s6.len() ==> (#[trigger] r[s0.len() + s1.len() + s2.len() + s3.len() + s4.len() + s5.len() + k]).6 == s6[k] && cloned(self.0, r[s0.len() + s1.len() + s2.len() + s3.len() + s4.len() + s5.len() + k].0) && cloned(self.1, r[s0.len() + s1.len() + s2.len() + s3.len() + s4.len() + s5.len() + k].1) && cloned(self.2, r[s0.len() + s1.len() + s2.len() + s3.len() + s4.len() + s5.len() + k].2) && cloned(self.3, r[s0.len() + s1.len() + s2.len() + s3.len() + s4.len() + s5.len() + k].3) && cloned(self.4, r[s0.len() + s1.len() + s2.len() + s3.len() + s4.len() + s5.len() + k].4) && cloned(self.5, r[s0.len() + s1.len() + s2.len() + s3.len() + s4.len() + s5.len() + k].5) && cloned(self.7, r[s0.len() + s1.len() + s2.len() + s3.len() + s4.len() + s5.len() + k].7)
                &&& forall|k: int| 0 <= k < s7.len() ==> (#[trigger] r[s0.len() + s1.len() + s2.len() + s3.len() + s4.len() + s5.len() + s6.len() + k]).7 == s7[k] && cloned(self.0, r[s0.len() + s1.len() + s2.len() + s3.len() + s4.len() + s5.len() + s6.len() + k].0) && cloned(self.1, r[s0.len() + s1.len() + s2.len() + s3.len() + s4.len() + s5.len() + s6.len() + k].1) && cloned(self.2, r[s0.len() + s1.len() + s2.len() + s3.len() + s4.len() + s5.len() + s6.len() + k].2) && cloned(self.3, r[s0.len() + s1.len() + s2.len() + s3.len() + s4.len() + s5.len() + s6.len() + k].3) && cloned(self.4, r[s0.len() + s1.len() + s2.len() + s3.len() + s4.len() + s5.len() + s6.len() + k].4) && cloned(self.5, r[s0.len() + s1.len() + s2.len() + s3.len() + s4.len() + s5.len() + s6.len() + k].5) && cloned(self.6, r[s0.len() + s1.len() + s2.len() + s3.len() + s4.len() + s5.len() + s6.len() + k].6)
            }
    }

    /// Each component generated in order.
    /// The components generated in turn, each starting where the one
    /// before left the generator.
    open spec fn arbitrary_from(before: Stream, after: Stream, size: usize, v: (A, B, C, D, E, F, G, H)) -> bool {
        exists|m1: Stream, m2: Stream, m3: Stream, m4: Stream, m5: Stream, m6: Stream, m7: Stream|
            #![trigger A::arbitrary_from(before, m1, size, v.0), B::arbitrary_from(m1, m2, size, v.1), C::arbitrary_from(m2, m3, size, v.2), D::arbitrary_from(m3, m4, size, v.3), E::arbitrary_from(m4, m5, size, v.4), F::arbitrary_from(m5, m6, size, v.5), G::arbitrary_from(m6, m7, size, v.6), H::arbitrary_from(m7, after, size, v.7)]
            A::arbitrary_from(before, m1, size, v.0)
            && B::arbitrary_from(m1, m2, size, v.1)
            && C::arbitrary_from(m2, m3, size, v.2)
            && D::arbitrary_from(m3, m4, size, v.3)
            && E::arbitrary_from(m4, m5, size, v.4)
            && F::arbitrary_from(m5, m6, size, v.5)
            && G::arbitrary_from(m6, m7, size, v.6)
            && H::arbitrary_from(m7, after, size, v.7)
    }

    fn arbitrary<R: Rng>(rng: &mut R, size: usize) -> (r: (A, B, C, D, E, F, G, H)) {
        let ghost s0 = *rng;
        let v0 = A::arbitrary(rng, size);
        let ghost s1 = *rng;
        let v1 = B::arbitrary(rng, size);
        let ghost s2 = *rng;
        let v2 = C::arbitrary(rng, size);
        let ghost s3 = *rng;
        let v3 = D::arbitrary(rng, size);
        let ghost s4 = *rng;
        let v4 = E::arbitrary(rng, size);
        let ghost s5 = *rng;
        let v5 = F::arbitrary(rng, size);
        let ghost s6 = *rng;
        let v6 = G::arbitrary(rng, size);
        let ghost s7 = *rng;
        let v7 = H::arbitrary(rng, size);
        let ghost s8 = *rng;
        let r = (v0, v1, v2, v3, v4, v5, v6, v7);
        assert(A::arbitrary_from(outputs(s0), outputs(s1), size, r.0) && B::arbitrary_from(outputs(s1), outputs(s2), size, r.1) && C::arbitrary_from(outputs(s2), outputs(s3), size, r.2) && D::arbitrary_from(outputs(s3), outputs(s4), size, r.3) && E::arbitrary_from(outputs(s4), outputs(s5), size, r.4) && F::arbitrary_from(outputs(s5), outputs(s6), size, r.5) && G::arbitrary_from(outputs(s6), outputs(s7), size, r.6) && H::arbitrary_from(outputs(s7), outputs(s8), size, r.7));
        r
    }

    /// Each component's candidates in turn, the other components cloned.
    fn shrink(&self) -> (r: Vec<(A, B, C, D, E, F, G, H)>) {
        let mut out: Vec<(A, B, C, D, E, F, G, H)> = Vec::new();
        let mut c0 = self.0.shrink();
        let ghost g0 = c0@;
        assert(g0.len() == c0.len());
        let mut k0: usize = 0;
        while c0.len() > 0
            invariant
                k0 <= g0.len(),
                g0.len() <= usize::MAX,
                c0@ == g0.skip(k0 as int),
                out@.len() == 0 + k0,
                forall|q: int| 0 <= q < k0 ==> (#[trigger] out@[0 + q]).0 == g0[q] && cloned(self.1, out@[0 + q].1) && cloned(self.2, out@[0 + q].2) && cloned(self.3, out@[0 + q].3) && cloned(self.4, out@[0 + q].4) && cloned(self.5, out@[0 + q].5) && cloned(self.6, out@[0 + q].6) && cloned(self.7, out@[0 + q].7),
            decreases c0@.len(),
        {
            let c = c0.remove(0);
            assert(c == g0[k0 as int]);
            assert(c0@ == g0.skip(k0 + 1));
            let ghost before = out@;
            out.push((c, self.1.clone(), self.2.clone(), self.3.clone(), self.4.clone(), self.5.clone(), self.6.clone(), self.7.clone()));
            assert forall|q: int| 0 <= q < k0 + 1 implies (#[trigger] out@[0 + q]).0 == g0[q] && cloned(self.1, out@[0 + q].1) && cloned(self.2, out@[0 + q].2) && cloned(self.3, out@[0 + q].3) && cloned(self.4, out@[0 + q].4) && cloned(self.5, out@[0 + q].5) && cloned(self.6, out@[0 + q].6) && cloned(self.7, out@[0 + q].7) by {
                if q < k0 {
                    assert(out@[0 + q] == before[0 + q]);
                }
            }
            k0 = k0 + 1;
        }
        let mut c1 = self.1.shrink();
        let ghost g1 = c1@;
        assert(g1.len() == c1.len());
        let mut k1: usize = 0;
        while c1.len() > 0
            invariant
                k1 <= g1.len(),
                g1.len() <= usize::MAX,
                g0.len() <= usize::MAX,
                c1@ == g1.skip(k1 as int),
                out@.len() == g0.len() + k1,
                forall|q: int| 0 <= q < g0.len() ==> (#[trigger] out@[0 + q]).0 == g0[q] && cloned(self.1, out@[0 + q].1) && cloned(self.2, out@[0 + q].2) && cloned(self.3, out@[0 + q].3) && cloned(self.4, out@[0 + q].4) && cloned(self.5, out@[0 + q].5) && cloned(self.6, out@[0 + q].6) && cloned(self.7, out@[0 + q].7),
                forall|q: int| 0 <= q < k1 ==> (#[trigger] out@[g0.len() + q]).1 == g1[q] && cloned(self.0, out@[g0.len() + q].0) && cloned(self.2, out@[g0.len() + q].2) && cloned(self.3, out@[g0.len() + q].3) && cloned(self.4, out@[g0.len() + q].4) && cloned(self.5, out@[g0.len() + q].5) && cloned(self.6, out@[g0.len() + q].6) && cloned(self.7, out@[g0.len() + q].7),
            decreases c1@.len(),
        {
            let c = c1.remove(0);
            assert(c == g1[k1 as int]);
            assert(c1@ == g1.skip(k1 + 1));
            let ghost before = out@;
            out.push((self.0.clone(), c, self.2.clone(), self.3.clone(), self.4.clone(), self.5.clone(), self.6.clone(), self.7.clone()));
            assert forall|q: int| 0 <= q < g0.len() implies (#[trigger] out@[0 + q]).0 == g0[q] && cloned(self.1, out@[0 + q].1) && cloned(self.2, out@[0 + q].2) && cloned(self.3, out@[0 + q].3) && cloned(self.4, out@[0 + q].4) && cloned(self.5, out@[0 + q].5) && cloned(self.6, out@[0 + q].6) && cloned(self.7, out@[0 + q].7) by {
                assert(out@[0 + q] == before[0 + q]);
            }
            assert forall|q: int| 0 <= q < k1 + 1 implies (#[trigger] out@[g0.len() + q]).1 == g1[q] && cloned(self.0, out@[g0.len() + q].0) && cloned(self.2, out@[g0.len() + q].2) && cloned(self.3, out@[g0.len() + q].3) && cloned(self.4, out@[g0.len() + q].4) && cloned(self.5, out@[g0.len() + q].5) && cloned(self.6, out@[g0.len() + q].6) && cloned(self.7, out@[g0.len() + q].7) by {
                if q < k1 {
                    assert(out@[g0.len() + q] == before[g0.len() + q]);
                }
            }
            k1 = k1 + 1;
        }
        let mut c2 = self.2.shrink();
        let ghost g2 = c2@;
        assert(g2.len() == c2.len());
        let mut k2: usize = 0;
        while c2.len() > 0
            invariant
                k2 <= g2.len(),
                g2.len() <= usize::MAX,
                g0.len() <= usize::MAX,
                g1.len() <= usize::MAX,
                c2@ == g2.skip(k2 as int),
                out@.len() == g0.len() + g1.len() + k2,
                forall|q: int| 0 <= q < g0.len() ==> (#[trigger] out@[0 + q]).0 == g0[q] && cloned(self.1, out@[0 + q].1) && cloned(self.2, out@[0 + q].2) && cloned(self.3, out@[0 + q].3) && cloned(self.4, out@[0 + q].4) && cloned(self.5, out@[0 + q].5) && cloned(self.6, out@[0 + q].6) && cloned(self.7, out@[0 + q].7),
                forall|q: int| 0 <= q < g1.len() ==> (#[trigger] out@[g0.len() + q]).1 == g1[q] && cloned(self.0, out@[g0.len() + q].0) && cloned(self.2, out@[g0.len() + q].2) && cloned(self.3, out@[g0.len() + q].3) && cloned(self.4, out@[g0.len() + q].4) && cloned(self.5, out@[g0.len() + q].5) && cloned(self.6, out@[g0.len() + q].6) && cloned(self.7, out@[g0.len() + q].7),
                forall|q: int| 0 <= q < k2 ==> (#[trigger] out@[g0.len() + g1.len() + q]).2 == g2[q] && cloned(self.0, out@[g0.len() + g1.len() + q].0) && cloned(self.1, out@[g0.len() + g1.len() + q].1) && cloned(self.3, out@[g0.len() + g1.len() + q].3) && cloned(self.4, out@[g0.len() + g1.len() + q].4) && cloned(self.5, out@[g0.len() + g1.len() + q].5) && cloned(self.6, out@[g0.len() + g1.len() + q].6) && cloned(self.7, out@[g0.len() + g1.len() + q].7),
            decreases c2@.len(),
        {
            let c = c2.remove(0);
            assert(c == g2[k2 as int]);
            assert(c2@ == g2.skip(k2 + 1));
            let ghost before = out@;
            out.push((self.0.clone(), self.1.clone(), c, self.3.clone(), self.4.clone(), self.5.clone(), self.6.clone(), self.7.clone()));
            assert forall|q: int| 0 <= q < g0.len() implies (#[trigger] out@[0 + q]).0 == g0[q] && cloned(self.1, out@[0 + q].1) && cloned(self.2, out@[0 + q].2) && cloned(self.3, out@[0 + q].3) && cloned(self.4, out@[0 + q].4) && cloned(self.5, out@[0 + q].5) && cloned(self.6, out@[0 + q].6) && cloned(self.7, out@[0 + q].7) by {
                assert(out@[0 + q] == before[0 + q]);
            }
            assert forall|q: int| 0 <= q < g1.len() implies (#[trigger] out@[g0.len() + q]).1 == g1[q] && cloned(self.0, out@[g0.len() + q].0) && cloned(self.2, out@[g0.len() + q].2) && cloned(self.3, out@[g0.len() + q].3) && cloned(self.4, out@[g0.len() + q].4) && cloned(self.5, out@[g0.len() + q].5) && cloned(self.6, out@[g0.len() + q].6) && cloned(self.7, out@[g0.len() + q].7) by {
                assert(out@[g0.len() + q] == before[g0.len() + q]);
            }
            assert forall|q: int| 0 <= q < k2 + 1 implies (#[trigger] out@[g0.len() + g1.len() + q]).2 == g2[q] && cloned(self.0, out@[g0.len() + g1.len() + q].0) && cloned(self.1, out@[g0.len() + g1.len() + q].1) && cloned(self.3, out@[g0.len() + g1.len() + q].3) && cloned(self.4, out@[g0.len() + g1.len() + q].4) && cloned(self.5, out@[g0.len() + g1.len() + q].5) && cloned(self.6, out@[g0.len() + g1.len() + q].6) && cloned(self.7, out@[g0.len() + g1.len() + q].7) by {
                if q < k2 {
                    assert(out@[g0.len() + g1.len() + q] == before[g0.len() + g1.len() + q]);
                }
            }
            k2 = k2 + 1;
        }
        let mut c3 = self.3.shrink();
        let ghost g3 = c3@;
        assert(g3.len() == c3.len());
        let mut k3: usize = 0;
        while c3.len() > 0
            invariant
                k3 <= g3.len(),
                g3.len() <= usize::MAX,
                g0.len() <= usize::MAX,
                g1.len() <= usize::MAX,
                g2.len() <= usize::MAX,
                c3@ == g3.skip(k3 as int),
                out@.len() == g0.len() + g1.len() + g2.len() + k3,
                forall|q: int| 0 <= q < g0.len() ==> (#[trigger] out@[0 + q]).0 == g0[q] && cloned(self.1, out@[0 + q].1) && cloned(self.2, out@[0 + q].2) && cloned(self.3, out@[0 + q].3) && cloned(self.4, out@[0 + q].4) && cloned(self.5, out@[0 + q].5) && cloned(self.6, out@[0 + q].6) && cloned(self.7, out@[0 + q].7),
                forall|q: int| 0 <= q < g1.len() ==> (#[trigger] out@[g0.len() + q]).1 == g1[q] && cloned(self.0, out@[g0.len() + q].0) && cloned(self.2, out@[g0.len() + q].2) && cloned(self.3, out@[g0.len() + q].3) && cloned(self.4, out@[g0.len() + q].4) && cloned(self.5, out@[g0.len() + q].5) && cloned(self.6, out@[g0.len() + q].6) && cloned(self.7, out@[g0.len() + q].7),
                forall|q: int| 0 <= q < g2.len() ==> (#[trigger] out@[g0.len() + g1.len() + q]).2 == g2[q] && cloned(self.0, out@[g0.len() + g1.len() + q].0) && cloned(self.1, out@[g0.len() + g1.len() + q].1) && cloned(self.3, out@[g0.len() + g1.len() + q].3) && cloned(self.4, out@[g0.len() + g1.len() + q].4) && cloned(self.5, out@[g0.len() + g1.len() + q].5) && cloned(self.6, out@[g0.len() + g1.len() + q].6) && cloned(self.7, out@[g0.len() + g1.len() + q].7),
                forall|q: int| 0 <= q < k3 ==> (#[trigger] out@[g0.len() + g1.len() + g2.len() + q]).3 == g3[q] && cloned(self.0, out@[g0.len() + g1.len() + g2.len() + q].0) && cloned(self.1, out@[g0.len() + g1.len() + g2.len() + q].1) && cloned(self.2, out@[g0.len() + g1.len() + g2.len() + q].2) && cloned(self.4, out@[g0.len() + g1.len() + g2.len() + q].4) && cloned(self.5, out@[g0.len() + g1.len() + g2.len() + q].5) && cloned(self.6, out@[g0.len() + g1.len() + g2.len() + q].6) && cloned(self.7, out@[g0.len() + g1.len() + g2.len() + q].7),
            decreases c3@.len(),
        {
            let c = c3.remove(0);
            assert(c == g3[k3 as int]);
            assert(c3@ == g3.skip(k3 + 1));
            let ghost before = out@;
            out.push((self.0.clone(), self.1.clone(), self.2.clone(), c, self.4.clone(), self.5.clone(), self.6.clone(), self.7.clone()));
            assert forall|q: int| 0 <= q < g0.len() implies (#[trigger] out@[0 + q]).0 == g0[q] && cloned(self.1, out@[0 + q].1) && cloned(self.2, out@[0 + q].2) && cloned(self.3, out@[0 + q].3) && cloned(self.4, out@[0 + q].4) && cloned(self.5, out@[0 + q].5) && cloned(self.6, out@[0 + q].6) && cloned(self.7, out@[0 + q].7) by {
                assert(out@[0 + q] == before[0 + q]);
            }
            assert forall|q: int| 0 <= q < g1.len() implies (#[trigger] out@[g0.len() + q]).1 == g1[q] && cloned(self.0, out@[g0.len() + q].0) && cloned(self.2, out@[g0.len() + q].2) && cloned(self.3, out@[g0.len() + q].3) && cloned(self.4, out@[g0.len() + q].4) && cloned(self.5, out@[g0.len() + q].5) && cloned(self.6, out@[g0.len() + q].6) && cloned(self.7, out@[g0.len() + q].7) by {
                assert(out@[g0.len() + q] == before[g0.len() + q]);
            }
            assert forall|q: int| 0 <= q < g2.len() implies (#[trigger] out@[g0.len() + g1.len() + q]).2 == g2[q] && cloned(self.0, out@[g0.len() + g1.len() + q].0) && cloned(self.1, out@[g0.len() + g1.len() + q].1) && cloned(self.3, out@[g0.len() + g1.len() + q].3) && cloned(self.4, out@[g0.len() + g1.len() + q].4) && cloned(self.5, out@[g0.len() + g1.len() + q].5) && cloned(self.6, out@[g0.len() + g1.len() + q].6) && cloned(self.7, out@[g0.len() + g1.len() + q].7) by {
                assert(out@[g0.len() + g1.len() + q] == before[g0.len() + g1.len() + q]);
            }
            assert forall|q: int| 0 <= q < k3 + 1 implies (#[trigger] out@[g0.len() + g1.len() + g2.len() + q]).3 == g3[q] && cloned(self.0, out@[g0.len() + g1.len() + g2.len() + q].0) && cloned(self.1, out@[g0.len() + g1.len() + g2.len() + q].1) && cloned(self.2, out@[g0.len() + g1.len() + g2.len() + q].2) && cloned(self.4, out@[g0.len() + g1.len() + g2.len() + q].4) && cloned(self.5, out@[g0.len() + g1.len() + g2.len() + q].5) && cloned(self.6, out@[g0.len() + g1.len() + g2.len() + q].6) && cloned(self.7, out@[g0.len() + g1.len() + g2.len() + q].7) by {
                if q < k3 {
                    assert(out@[g0.len() + g1.len() + g2.len() + q] == before[g0.len() + g1.len() + g2.len() + q]);
                }
            }
            k3 = k3 + 1;
        }
        let mut c4 = self.4.shrink();
        let ghost g4 = c4@;
        assert(g4.len() == c4.len());
        let mut k4: usize = 0;
        while c4.len() > 0
            invariant
                k4 <= g4.len(),
                g4.len() <= usize::MAX,
                g0.len() <= usize::MAX,
                g1.len() <= usize::MAX,
                g2.len() <= usize::MAX,
                g3.len() <= usize::MAX,
                c4@ == g4.skip(k4 as int),
                out@.len() == g0.len() + g1.len() + g2.len() + g3.len() + k4,
                forall|q: int| 0 <= q < g0.len() ==> (#[trigger] out@[0 + q]).0 == g0[q] && cloned(self.1, out@[0 + q].1) && cloned(self.2, out@[0 + q].2) && cloned(self.3, out@[0 + q].3) && cloned(self.4, out@[0 + q].4) && cloned(self.5, out@[0 + q].5) && cloned(self.6, out@[0 + q].6) && cloned(self.7, out@[0 + q].7),
                forall|q: int| 0 <= q < g1.len() ==> (#[trigger] out@[g0.len() + q]).1 == g1[q] && cloned(self.0, out@[g0.len() + q].0) && cloned(self.2, out@[g0.len() + q].2) && cloned(self.3, out@[g0.len() + q].3) && cloned(self.4, out@[g0.len() + q].4) && cloned(self.5, out@[g0.len() + q].5) && cloned(self.6, out@[g0.len() + q].6) && cloned(self.7, out@[g0.len() + q].7),
                forall|q: int| 0 <= q < g2.len() ==> (#[trigger] out@[g0.len() + g1.len() + q]).2 == g2[q] && cloned(self.0, out@[g0.len() + g1.len() + q].0) && cloned(self.1, out@[g0.len() + g1.len() + q].1) && cloned(self.3, out@[g0.len() + g1.len() + q].3) && cloned(self.4, out@[g0.len() + g1.len() + q].4) && cloned(self.5, out@[g0.len() + g1.len() + q].5) && cloned(self.6, out@[g0.len() + g1.len() + q].6) && cloned(self.7, out@[g0.len() + g1.len() + q].7),
                forall|q: int| 0 <= q < g3.len() ==> (#[trigger] out@[g0.len() + g1.len() + g2.len() + q]).3 == g3[q] && cloned(self.0, out@[g0.len() + g1.len() + g2.len() + q].0) && cloned(self.1, out@[g0.len() + g1.len() + g2.len() + q].1) && cloned(self.2, out@[g0.len() + g1.len() + g2.len() + q].2) && cloned(self.4, out@[g0.len() + g1.len() + g2.len() + q].4) && cloned(self.5, out@[g0.len() + g1.len() + g2.len() + q].5) && cloned(self.6, out@[g0.len() + g1.len() + g2.len() + q].6) && cloned(self.7, out@[g0.len() + g1.len() + g2.len() + q].7),
                forall|q: int| 0 <= q < k4 ==> (#[trigger] out@[g0.len() + g1.len() + g2.len() + g3.len() + q]).4 == g4[q] && cloned(self.0, out@[g0.len() + g1.len() + g2.len() + g3.len() + q].0) && cloned(self.1, out@[g0.len() + g1.len() + g2.len() + g3.len() + q].1) && cloned(self.2, out@[g0.len() + g1.len() + g2.len() + g3.len() + q].2) && cloned(self.3, out@[g0.len() + g1.len() + g2.len() + g3.len() + q].3) && cloned(self.5, out@[g0.len() + g1.len() + g2.len() + g3.len() + q].5) && cloned(self.6, out@[g0.len() + g1.len() + g2.len() + g3.len() + q].6) && cloned(self.7, out@[g0.len() + g1.len() + g2.len() + g3.len() + q].7),
            decreases c4@.len(),
        {
            let c = c4.remove(0);
            assert(c == g4[k4 as int]);
            assert(c4@ == g4.skip(k4 + 1));
            let ghost before = out@;
            out.push((self.0.clone(), self.1.clone(), self.2.clone(), self.3.clone(), c, self.5.clone(), self.6.clone(), self.7.clone()));
            assert forall|q: int| 0 <= q < g0.len() implies (#[trigger] out@[0 + q]).0 == g0[q] && cloned(self.1, out@[0 + q].1) && cloned(self.2, out@[0 + q].2) && cloned(self.3, out@[0 + q].3) && cloned(self.4, out@[0 + q].4) && cloned(self.5, out@[0 + q].5) && cloned(self.6, out@[0 + q].6) && cloned(self.7, out@[0 + q].7) by {
                assert(out@[0 + q] == before[0 + q]);
            }
            assert forall|q: int| 0 <= q < g1.len() implies (#[trigger] out@[g0.len() + q]).1 == g1[q] && cloned(self.0, out@[g0.len() + q].0) && cloned(self.2, out@[g0.len() + q].2) && cloned(self.3, out@[g0.len() + q].3) && cloned(self.4, out@[g0.len() + q].4) && cloned(self.5, out@[g0.len() + q].5) && cloned(self.6, out@[g0.len() + q].6) && cloned(self.7, out@[g0.len() + q].7) by {
                assert(out@[g0.len() + q] == before[g0.len() + q]);
            }
            assert forall|q: int| 0 <= q < g2.len() implies (#[trigger] out@[g0.len() + g1.len() + q]).2 == g2[q] && cloned(self.0, out@[g0.len() + g1.len() + q].0) && cloned(self.1, out@[g0.len() + g1.len() + q].1) && cloned(self.3, out@[g0.len() + g1.len() + q].3) && cloned(self.4, out@[g0.len() + g1.len() + q].4) && cloned(self.5, out@[g0.len() + g1.len() + q].5) && cloned(self.6, out@[g0.len() + g1.len() + q].6) && cloned(self.7, out@[g0.len() + g1.len() + q].7) by {
                assert(out@[g0.len() + g1.len() + q] == before[g0.len() + g1.len() + q]);
            }
            assert forall|q: int| 0 <= q < g3.len() implies (#[trigger] out@[g0.len() + g1.len() + g2.len() + q]).3 == g3[q] && cloned(self.0, out@[g0.len() + g1.len() + g2.len() + q].0) && cloned(self.1, out@[g0.len() + g1.len() + g2.len() + q].1) && cloned(self.2, out@[g0.len() + g1.len() + g2.len() + q].2) && cloned(self.4, out@[g0.len() + g1.len() + g2.len() + q].4) && cloned(self.5, out@[g0.len() + g1.len() + g2.len() + q].5) && cloned(self.6, out@[g0.len() + g1.len() + g2.len() + q].6) && cloned(self.7, out@[g0.len() + g1.len() + g2.len() + q].7) by {
                assert(out@[g0.len() + g1.len() + g2.len() + q] == before[g0.len() + g1.len() + g2.len() + q]);
            }
            assert forall|q: int| 0 <= q < k4 + 1 implies (#[trigger] out@[g0.len() + g1.len() + g2.len() + g3.len() + q]).4 == g4[q] && cloned(self.0, out@[g0.len() + g1.len() + g2.len() + g3.len() + q].0) && cloned(self.1, out@[g0.len() + g1.len() + g2.len() + g3.len() + q].1) && cloned(self.2, out@[g0.len() + g1.len() + g2.len() + g3.len() + q].2) && cloned(self.3, out@[g0.len() + g1.len() + g2.len() + g3.len() + q].3) && cloned(self.5, out@[g0.len() + g1.len() + g2.len() + g3.len() + q].5) && cloned(self.6, out@[g0.len() + g1.len() + g2.len() + g3.len() + q].6) && cloned(self.7, out@[g0.len() + g1.len() + g2.len() + g3.len() + q].7) by {
                if q < k4 {
                    assert(out@[g0.len() + g1.len() + g2.len() + g3.len() + q] == before[g0.len() + g1.len() + g2.len() + g3.len() + q]);
                }
            }
            k4 = k4 + 1;
        }
        let mut c5 = self.5.shrink();
        let ghost g5 = c5@;
        assert(g5.len() == c5.len());
        let mut k5: usize = 0;
        while c5.len() > 0
            invariant
                k5 <= g5.len(),
                g5.len() <= usize::MAX,
                g0.len() <= usize::MAX,
                g1.len() <= usize::MAX,
                g2.len() <= usize::MAX,
                g3.len() <= usize::MAX,
                g4.len() <= usize::MAX,
                c5@ == g5.skip(k5 as int),
                out@.len() == g0.len() + g1.len() + g2.len() + g3.len() + g4.len() + k5,
                forall|q: int| 0 <= q < g0.len() ==> (#[trigger] out@[0 + q]).0 == g0[q] && cloned(self.1, out@[0 + q].1) && cloned(self.2, out@[0 + q].2) && cloned(self.3, out@[0 + q].3) && cloned(self.4, out@[0 + q].4) && cloned(self.5, out@[0 + q].5) && cloned(self.6, out@[0 + q].6) && cloned(self.7, out@[0 + q].7),
                forall|q: int| 0 <= q < g1.len() ==> (#[trigger] out@[g0.len() + q]).1 == g1[q] && cloned(self.0, out@[g0.len() + q].0) && cloned(self.2, out@[g0.len() + q].2) && cloned(self.3, out@[g0.len() + q].3) && cloned(self.4, out@[g0.len() + q].4) && cloned(self.5, out@[g0.len() + q].5) && cloned(self.6, out@[g0.len() + q].6) && cloned(self.7, out@[g0.len() + q].7),
                forall|q: int| 0 <= q < g2.len() ==> (#[trigger] out@[g0.len() + g1.len() + q]).2 == g2[q] && cloned(self.0, out@[g0.len() + g1.len() + q].0) && cloned(self.1, out@[g0.len() + g1.len() + q].1) && cloned(self.3, out@[g0.len() + g1.len() + q].3) && cloned(self.4, out@[g0.len() + g1.len() + q].4) && cloned(self.5, out@[g0.len() + g1.len() + q].5) && cloned(self.6, out@[g0.len() + g1.len() + q].6) && cloned(self.7, out@[g0.len() + g1.len() + q].7),
                forall|q: int| 0 <= q < g3.len() ==> (#[trigger] out@[g0.len() + g1.len() + g2.len() + q]).3 == g3[q] && cloned(self.0, out@[g0.len() + g1.len() + g2.len() + q].0) && cloned(self.1, out@[g0.len() + g1.len() + g2.len() + q].1) && cloned(self.2, out@[g0.len() + g1.len() + g2.len() + q].2) && cloned(self.4, out@[g0.len() + g1.len() + g2.len() + q].4) && cloned(self.5, out@[g0.len() + g1.len() + g2.len() + q].5) && cloned(self.6, out@[g0.len() + g1.len() + g2.len() + q].6) && cloned(self.7, out@[g0.len() + g1.len() + g2.len() + q].7),
                forall|q: int| 0 <= q < g4.len() ==> (#[trigger] out@[g0.len() + g1.len() + g2.len() + g3.len() + q]).4 == g4[q] && cloned(self.0, out@[g0.len() + g1.len() + g2.len() + g3.len() + q].0) && cloned(self.1, out@[g0.len() + g1.len() + g2.len() + g3.len() + q].1) && cloned(self.2, out@[g0.len() + g1.len() + g2.len() + g3.len() + q].2) && cloned(self.3, out@[g0.len() + g1.len() + g2.len() + g3.len() + q].3) && cloned(self.5, out@[g0.len() + g1.len() + g2.len() + g3.len() + q].5) && cloned(self.6, out@[g0.len() + g1.len() + g2.len() + g3.len() + q].6) && cloned(self.7, out@[g0.len() + g1.len() + g2.len() + g3.len() + q].7),
                forall|q: int| 0 <= q < k5 ==> (#[trigger] out@[g0.len() + g1.len() + g2.len() + g3.len() + g4.len() + q]).5 == g5[q] && cloned(self.0, out@[g0.len() + g1.len() + g2.len() + g3.len() + g4.len() + q].0) && cloned(self.1, out@[g0.len() + g1.len() + g2.len() + g3.len() + g4.len() + q].1) && cloned(self.2, out@[g0.len() + g1.len() + g2.len() + g3.len() + g4.len() + q].2) && cloned(self.3, out@[g0.len() + g1.len() + g2.len() + g3.len() + g4.len() + q].3) && cloned(self.4, out@[g0.len() + g1.len() + g2.len() + g3.len() + g4.len() + q].4) && cloned(self.6, out@[g0.len() + g1.len() + g2.len() + g3.len() + g4.len() + q].6) && cloned(self.7, out@[g0.len() + g1.len() + g2.len() + g3.len() + g4.len() + q].7),
            decreases c5@.len(),
        {
            let c = c5.remove(0);
            assert(c == g5[k5 as int]);
            assert(c5@ == g5.skip(k5 + 1));
            let ghost before = out@;
            out.push((self.0.clone(), self.1.clone(), self.2.clone(), self.3.clone(), self.4.clone(), c, self.6.clone(), self.7.clone()));
            assert forall|q: int| 0 <= q < g0.len() implies (#[trigger] out@[0 + q]).0 == g0[q] && cloned(self.1, out@[0 + q].1) && cloned(self.2, out@[0 + q].2) && cloned(self.3, out@[0 + q].3) && cloned(self.4, out@[0 + q].4) && cloned(self.5, out@[0 + q].5) && cloned(self.6, out@[0 + q].6) && cloned(self.7, out@[0 + q].7) by {
                assert(out@[0 + q] == before[0 + q]);
            }
            assert forall|q: int| 0 <= q < g1.len() implies (#[trigger] out@[g0.len() + q]).1 == g1[q] && cloned(self.0, out@[g0.len() + q].0) && cloned(self.2, out@[g0.len() + q].2) && cloned(self.3, out@[g0.len() + q].3) && cloned(self.4, out@[g0.len() + q].4) && cloned(self.5, out@[g0.len() + q].5) && cloned(self.6, out@[g0.len() + q].6) && cloned(self.7, out@[g0.len() + q].7) by {
                assert(out@[g0.len() + q] == before[g0.len() + q]);
            }
            assert forall|q: int| 0 <= q < g2.len() implies (#[trigger] out@[g0.len() + g1.len() + q]).2 == g2[q] && cloned(self.0, out@[g0.len() + g1.len() + q].0) && cloned(self.1, out@[g0.len() + g1.len() + q].1) && cloned(self.3, out@[g0.len() + g1.len() + q].3) && cloned(self.4, out@[g0.len() + g1.len() + q].4) && cloned(self.5, out@[g0.len() + g1.len() + q].5) && cloned(self.6, out@[g0.len() + g1.len() + q].6) && cloned(self.7, out@[g0.len() + g1.len() + q].7) by {
                assert(out@[g0.len() + g1.len() + q] == before[g0.len() + g1.len() + q]);
            }
            assert forall|q: int| 0 <= q < g3.len() implies (#[trigger] out@[g0.len() + g1.len() + g2.len() + q]).3 == g3[q] && cloned(self.0, out@[g0.len() + g1.len() + g2.len() + q].0) && cloned(self.1, out@[g0.len() + g1.len() + g2.len() + q].1) && cloned(self.2, out@[g0.len() + g1.len() + g2.len() + q].2) && cloned(self.4, out@[g0.len() + g1.len() + g2.len() + q].4) && cloned(self.5, out@[g0.len() + g1.len() + g2.len() + q].5) && cloned(self.6, out@[g0.len() + g1.len() + g2.len() + q].6) && cloned(self.7, out@[g0.len() + g1.len() + g2.len() + q].7) by {
                assert(out@[g0.len() + g1.len() + g2.len() + q] == before[g0.len() + g1.len() + g2.len() + q]);
            }
            assert forall|q: int| 0 <= q < g4.len() implies (#[trigger] out@[g0.len() + g1.len() + g2.len() + g3.len() + q]).4 == g4[q] && cloned(self.0, out@[g0.len() + g1.len() + g2.len() + g3.len() + q].0) && cloned(self.1, out@[g0.len() + g1.len() + g2.len() + g3.len() + q].1) && cloned(self.2, out@[g0.len() + g1.len() + g2.len() + g3.len() + q].2) && cloned(self.3, out@[g0.len() + g1.len() + g2.len() + g3.len() + q].3) && cloned(self.5, out@[g0.len() + g1.len() + g2.len() + g3.len() + q].5) && cloned(self.6, out@[g0.len() + g1.len() + g2.len() + g3.len() + q].6) && cloned(self.7, out@[g0.len() + g1.len() + g2.len() + g3.len() + q].7) by {
                assert(out@[g0.len() + g1.len() + g2.len() + g3.len() + q] == before[g0.len() + g1.len() + g2.len() + g3.len() + q]);
            }
            assert forall|q: int| 0 <= q < k5 + 1 implies (#[trigger] out@[g0.len() + g1.len() + g2.len() + g3.len() + g4.len() + q]).5 == g5[q] && cloned(self.0, out@[g0.len() + g1.len() + g2.len() + g3.len() + g4.len() + q].0) && cloned(self.1, out@[g0.len() + g1.len() + g2.len() + g3.len() + g4.len() + q].1) && cloned(self.2, out@[g0.len() + g1.len() + g2.len() + g3.len() + g4.len() + q].2) && cloned(self.3, out@[g0.len() + g1.len() + g2.len() + g3.len() + g4.len() + q].3) && cloned(self.4, out@[g0.len() + g1.len() + g2.len() + g3.len() + g4.len() + q].4) && cloned(self.6, out@[g0.len() + g1.len() + g2.len() + g3.len() + g4.len() + q].6) && cloned(self.7, out@[g0.len() + g1.len() + g2.len() + g3.len() + g4.len() + q].7) by {
                if q < k5 {
                    assert(out@[g0.len() + g1.len() + g2.len() + g3.len() + g4.len() + q] == before[g0.len() + g1.len() + g2.len() + g3.len() + g4.len() + q]);
                }
            }
            k5 = k5 + 1;
        }
        let mut c6 = self.6.shrink();
        let ghost g6 = c6@;
        assert(g6.len() == c6.len());
        let mut k6: usize = 0;
        while c6.len() > 0
            invariant
                k6 <= g6.len(),
                g6.len() <= usize::MAX,
                g0.len() <= usize::MAX,
                g1.len() <= usize::MAX,
                g2.len() <= usize::MAX,
                g3.len() <= usize::MAX,
                g4.len() <= usize::MAX,
                g5.len() <= usize::MAX,
                c6@ == g6.skip(k6 as int),
                out@.len() == g0.len() + g1.len() + g2.len() + g3.len() + g4.len() + g5.len() + k6,
                forall|q: int| 0 <= q < g0.len() ==> (#[trigger] out@[0 + q]).0 == g0[q] && cloned(self.1, out@[0 + q].1) && cloned(self.2, out@[0 + q].2) && cloned(self.3, out@[0 + q].3) && cloned(self.4, out@[0 + q].4) && cloned(self.5, out@[0 + q].5) && cloned(self.6, out@[0 + q].6) && cloned(self.7, out@[0 + q].7),
                forall|q: int| 0 <= q < g1.len() ==> (#[trigger] out@[g0.len() + q]).1 == g1[q] && cloned(self.0, out@[g0.len() + q].0) && cloned(self.2, out@[g0.len() + q].2) && cloned(self.3, out@[g0.len() + q].3) && cloned(self.4, out@[g0.len() + q].4) && cloned(self.5, out@[g0.len() + q].5) && cloned(self.6, out@[g0.len() + q].6) && cloned(self.7, out@[g0.len() + q].7),
                forall|q: int| 0 <= q < g2.len() ==> (#[trigger] out@[g0.len() + g1.len() + q]).2 == g2[q] && cloned(self.0, out@[g0.len() + g1.len() + q].0) && cloned(self.1, out@[g0.len() + g1.len() + q].1) && cloned(self.3, out@[g0.len() + g1.len() + q].3) && cloned(self.4, out@[g0.len() + g1.len() + q].4) && cloned(self.5, out@[g0.len() + g1.len() + q].5) && cloned(self.6, out@[g0.len() + g1.len() + q].6) && cloned(self.7, out@[g0.len() + g1.len() + q].7),
                forall|q: int| 0 <= q < g3.len() ==> (#[trigger] out@[g0.len() + g1.len() + g2.len() + q]).3 == g3[q] && cloned(self.0, out@[g0.len() + g1.len() + g2.len() + q].0) && cloned(self.1, out@[g0.len() + g1.len() + g2.len() + q].1) && cloned(self.2, out@[g0.len() + g1.len() + g2.len() + q].2) && cloned(self.4, out@[g0.len() + g1.len() + g2.len() + q].4) && cloned(self.5, out@[g0.len() + g1.len() + g2.len() + q].5) && cloned(self.6, out@[g0.len() + g1.len() + g2.len() + q].6) && cloned(self.7, out@[g0.len() + g1.len() + g2.len() + q].7),
                forall|q: int| 0 <= q < g4.len() ==> (#[trigger] out@[g0.len() + g1.len() + g2.len() + g3.len() + q]).4 == g4[q] && cloned(self.0, out@[g0.len() + g1.len() + g2.len() + g3.len() + q].0) && cloned(self.1, out@[g0.len() + g1.len() + g2.len() + g3.len() + q].1) && cloned(self.2, out@[g0.len() + g1.len() + g2.len() + g3.len() + q].2) && cloned(self.3, out@[g0.len() + g1.len() + g2.len() + g3.len() + q].3) && cloned(self.5, out@[g0.len() + g1.len() + g2.len() + g3.len() + q].5) && cloned(self.6, out@[g0.len() + g1.len() + g2.len() + g3.len() + q].6) && cloned(self.7, out@[g0.len() + g1.len() + g2.len() + g3.len() + q].7),
                forall|q: int| 0 <= q < g5.len() ==> (#[trigger] out@[g0.len() + g1.len() + g2.len() + g3.len() + g4.len() + q]).5 == g5[q] && cloned(self.0, out@[g0.len() + g1.len() + g2.len() + g3.len() + g4.len() + q].0) && cloned(self.1, out@[g0.len() + g1.len() + g2.len() + g3.len() + g4.len() + q].1) && cloned(self.2, out@[g0.len() + g1.len() + g2.len() + g3.len() + g4.len() + q].2) && cloned(self.3, out@[g0.len() + g1.len() + g2.len() + g3.len() + g4.len() + q].3) && cloned(self.4, out@[g0.len() + g1.len() + g2.len() + g3.len() + g4.len() + q].4) && cloned(self.6, out@[g0.len() + g1.len() + g2.len() + g3.len() + g4.len() + q].6) && cloned(self.7, out@[g0.len() + g1.len() + g2.len() + g3.len() + g4.len() + q].7),
                forall|q: int| 0 <= q < k6 ==> (#[trigger] out@[g0.len() + g1.len() + g2.len() + g3.len() + g4.len() + g5.len() + q]).6 == g6[q] && cloned(self.0, out@[g0.len() + g1.len() + g2.len() + g3.len() + g4.len() + g5.len() + q].0) && cloned(self.1, out@[g0.len() + g1.len() + g2.len() + g3.len() + g4.len() + g5.len() + q].1) && cloned(self.2, out@[g0.len() + g1.len() + g2.len() + g3.len() + g4.len() + g5.len() + q].2) && cloned(self.3, out@[g0.len() + g1.len() + g2.len() + g3.len() + g4.len() + g5.len() + q].3) && cloned(self.4, out@[g0.len() + g1.len() + g2.len() + g3.len() + g4.len() + g5.len() + q].4) && cloned(self.5, out@[g0.len() + g1.len() + g2.len() + g3.len() + g4.len() + g5.len() + q].5) && cloned(self.7, out@[g0.len() + g1.len() + g2.len() + g3.len() + g4.len() + g5.len() + q].7),
            decreases c6@.len(),
        {
            let c = c6.remove(0);
            assert(c == g6[k6 as int]);
            assert(c6@ == g6.skip(k6 + 1));
            let ghost before = out@;
            out.push((self.0.clone(), self.1.clone(), self.2.clone(), self.3.clone(), self.4.clone(), self.5.clone(), c, self.7.clone()));
            assert forall|q: int| 0 <= q < g0.len() implies (#[trigger] out@[0 + q]).0 == g0[q] && cloned(self.1, out@[0 + q].1) && cloned(self.2, out@[0 + q].2) && cloned(self.3, out@[0 + q].3) && cloned(self.4, out@[0 + q].4) && cloned(self.5, out@[0 + q].5) && cloned(self.6, out@[0 + q].6) && cloned(self.7, out@[0 + q].7) by {
                assert(out@[0 + q] == before[0 + q]);
            }
            assert forall|q: int| 0 <= q < g1.len() implies (#[trigger] out@[g0.len() + q]).1 == g1[q] && cloned(self.0, out@[g0.len() + q].0) && cloned(self.2, out@[g0.len() + q].2) && cloned(self.3, out@[g0.len() + q].3) && cloned(self.4, out@[g0.len() + q].4) && cloned(self.5, out@[g0.len() + q].5) && cloned(self.6, out@[g0.len() + q].6) && cloned(self.7, out@[g0.len() + q].7) by {
                assert(out@[g0.len() + q] == before[g0.len() + q]);
            }
            assert forall|q: int| 0 <= q < g2.len() implies (#[trigger] out@[g0.len() + g1.len() + q]).2 == g2[q] && cloned(self.0, out@[g0.len() + g1.len() + q].0) && cloned(self.1, out@[g0.len() + g1.len() + q].1) && cloned(self.3, out@[g0.len() + g1.len() + q].3) && cloned(self.4, out@[g0.len() + g1.len() + q].4) && cloned(self.5, out@[g0.len() + g1.len() + q].5) && cloned(self.6, out@[g0.len() + g1.len() + q].6) && cloned(self.7, out@[g0.len() + g1.len() + q].7) by {
                assert(out@[g0.len() + g1.len() + q] == before[g0.len() + g1.len() + q]);
            }
            assert forall|q: int| 0 <= q < g3.len() implies (#[trigger] out@[g0.len() + g1.len() + g2.len() + q]).3 == g3[q] && cloned(self.0, out@[g0.len() + g1.len() + g2.len() + q].0) && cloned(self.1, out@[g0.len() + g1.len() + g2.len() + q].1) && cloned(self.2, out@[g0.len() + g1.len() + g2.len() + q].2) && cloned(self.4, out@[g0.len() + g1.len() + g2.len() + q].4) && cloned(self.5, out@[g0.len() + g1.len() + g2.len() + q].5) && cloned(self.6, out@[g0.len() + g1.len() + g2.len() + q].6) && cloned(self.7, out@[g0.len() + g1.len() + g2.len() + q].7) by {
                assert(out@[g0.len() + g1.len() + g2.len() + q] == before[g0.len() + g1.len() + g2.len() + q]);
            }
            assert forall|q: int| 0 <= q < g4.len() implies (#[trigger] out@[g0.len() + g1.len() + g2.len() + g3.len() + q]).4 == g4[q] && cloned(self.0, out@[g0.len() + g1.len() + g2.len() + g3.len() + q].0) && cloned(self.1, out@[g0.len() + g1.len() + g2.len() + g3.len() + q].1) && cloned(self.2, out@[g0.len() + g1.len() + g2.len() + g3.len() + q].2) && cloned(self.3, out@[g0.len() + g1.len() + g2.len() + g3.len() + q].3) && cloned(self.5, out@[g0.len() + g1.len() + g2.len() + g3.len() + q].5) && cloned(self.6, out@[g0.len() + g1.len() + g2.len() + g3.len() + q].6) && cloned(self.7, out@[g0.len() + g1.len() + g2.len() + g3.len() + q].7) by {
                assert(out@[g0.len() + g1.len() + g2.len() + g3.len() + q] == before[g0.len() + g1.len() + g2.len() + g3.len() + q]);
            }
            assert forall|q: int| 0 <= q < g5.len() implies (#[trigger] out@[g0.len() + g1.len() + g2.len() + g3.len() + g4.len() + q]).5 == g5[q] && cloned(self.0, out@[g0.len() + g1.len() + g2.len() + g3.len() + g4.len() + q].0) && cloned(self.1, out@[g0.len() + g1.len() + g2.len() + g3.len() + g4.len() + q].1) && cloned(self.2, out@[g0.len() + g1.len() + g2.len() + g3.len() + g4.len() + q].2) && cloned(self.3, out@[g0.len() + g1.len() + g2.len() + g3.len() + g4.len() + q].3) && cloned(self.4, out@[g0.len() + g1.len() + g2.len() + g3.len() + g4.len() + q].4) && cloned(self.6, out@[g0.len() + g1.len() + g2.len() + g3.len() + g4.len() + q].6) && cloned(self.7, out@[g0.len() + g1.len() + g2.len() + g3.len() + g4.len() + q].7) by {
                assert(out@[g0.len() + g1.len() + g2.len() + g3.len() + g4.len() + q] == before[g0.len() + g1.len() + g2.len() + g3.len() + g4.len() + q]);
            }
            assert forall|q: int| 0 <= q < k6 + 1 implies (#[trigger] out@[g0.len() + g1.len() + g2.len() + g3.len() + g4.len() + g5.len() + q]).6 == g6[q] && cloned(self.0, out@[g0.len() + g1.len() + g2.len() + g3.len() + g4.len() + g5.len() + q].0) && cloned(self.1, out@[g0.len() + g1.len() + g2.len() + g3.len() + g4.len() + g5.len() + q].1) && cloned(self.2, out@[g0.len() + g1.len() + g2.len() + g3.len() + g4.len() + g5.len() + q].2) && cloned(self.3, out@[g0.len() + g1.len() + g2.len() + g3.len() + g4.len() + g5.len() + q].3) && cloned(self.4, out@[g0.len() + g1.len() + g2.len() + g3.len() + g4.len() + g5.len() + q].4) && cloned(self.5, out@[g0.len() + g1.len() + g2.len() + g3.len() + g4.len() + g5.len() + q].5) && cloned(self.7, out@[g0.len() + g1.len() + g2.len() + g3.len() + g4.len() + g5.len() + q].7) by {
                if q < k6 {
                    assert(out@[g0.len() + g1.len() + g2.len() + g3.len() + g4.len() + g5.len() + q] == before[g0.len() + g1.len() + g2.len() + g3.len() + g4.len() + g5.len() + q]);
                }
            }
            k6 = k6 + 1;
        }
        let mut c7 = self.7.shrink();
        let ghost g7 = c7@;
        assert(g7.len() == c7.len());
        let mut k7: usize = 0;
        while c7.len() > 0
            invariant
                k7 <= g7.len(),
                g7.len() <= usize::MAX,
                g0.len() <= usize::MAX,
                g1.len() <= usize::MAX,
                g2.len() <= usize::MAX,
                g3.len() <= usize::MAX,
                g4.len() <= usize::MAX,
                g5.len() <= usize::MAX,
                g6.len() <= usize::MAX,
                c7@ == g7.skip(k7 as int),
                out@.len() == g0.len() + g1.len() + g2.len() + g3.len() + g4.len() + g5.len() + g6.len() + k7,
                forall|q: int| 0 <= q < g0.len() ==> (#[trigger] out@[0 + q]).0 == g0[q] && cloned(self.1, out@[0 + q].1) && cloned(self.2, out@[0 + q].2) && cloned(self.3, out@[0 + q].3) && cloned(self.4, out@[0 + q].4) && cloned(self.5, out@[0 + q].5) && cloned(self.6, out@[0 + q].6) && cloned(self.7, out@[0 + q].7),
                forall|q: int| 0 <= q < g1.len() ==> (#[trigger] out@[g0.len() + q]).1 == g1[q] && cloned(self.0, out@[g0.len() + q].0) && cloned(self.2, out@[g0.len() + q].2) && cloned(self.3, out@[g0.len() + q].3) && cloned(self.4, out@[g0.len() + q].4) && cloned(self.5, out@[g0.len() + q].5) && cloned(self.6, out@[g0.len() + q].6) && cloned(self.7, out@[g0.len() + q].7),
                forall|q: int| 0 <= q < g2.len() ==> (#[trigger] out@[g0.len() + g1.len() + q]).2 == g2[q] && cloned(self.0, out@[g0.len() + g1.len() + q].0) && cloned(self.1, out@[g0.len() + g1.len() + q].1) && cloned(self.3, out@[g0.len() + g1.len() + q].3) && cloned(self.4, out@[g0.len() + g1.len() + q].4) && cloned(self.5, out@[g0.len() + g1.len() + q].5) && cloned(self.6, out@[g0.len() + g1.len() + q].6) && cloned(self.7, out@[g0.len() + g1.len() + q].7),
                forall|q: int| 0 <= q < g3.len() ==> (#[trigger] out@[g0.len() + g1.len() + g2.len() + q]).3 == g3[q] && cloned(self.0, out@[g0.len() + g1.len() + g2.len() + q].0) && cloned(self.1, out@[g0.len() + g1.len() + g2.len() + q].1) && cloned(self.2, out@[g0.len() + g1.len() + g2.len() + q].2) && cloned(self.4, out@[g0.len() + g1.len() + g2.len() + q].4) && cloned(self.5, out@[g0.len() + g1.len() + g2.len() + q].5) && cloned(self.6, out@[g0.len() + g1.len() + g2.len() + q].6) && cloned(self.7, out@[g0.len() + g1.len() + g2.len() + q].7),
                forall|q: int| 0 <= q < g4.len() ==> (#[trigger] out@[g0.len() + g1.len() + g2.len() + g3.len() + q]).4 == g4[q] && cloned(self.0, out@[g0.len() + g1.len() + g2.len() + g3.len() + q].0) && cloned(self.1, out@[g0.len() + g1.len() + g2.len() + g3.len() + q].1) && cloned(self.2, out@[g0.len() + g1.len() + g2.len() + g3.len() + q].2) && cloned(self.3, out@[g0.len() + g1.len() + g2.len() + g3.len() + q].3) && cloned(self.5, out@[g0.len() + g1.len() + g2.len() + g3.len() + q].5) && cloned(self.6, out@[g0.len() + g1.len() + g2.len() + g3.len() + q].6) && cloned(self.7, out@[g0.len() + g1.len() + g2.len() + g3.len() + q].7),
                forall|q: int| 0 <= q < g5.len() ==> (#[trigger] out@[g0.len() + g1.len() + g2.len() + g3.len() + g4.len() + q]).5 == g5[q] && cloned(self.0, out@[g0.len() + g1.len() + g2.len() + g3.len() + g4.len() + q].0) && cloned(self.1, out@[g0.len() + g1.len() + g2.len() + g3.len() + g4.len() + q].1) && cloned(self.2, out@[g0.len() + g1.len() + g2.len() + g3.len() + g4.len() + q].2) && cloned(self.3, out@[g0.len() + g1.len() + g2.len() + g3.len() + g4.len() + q].3) && cloned(self.4, out@[g0.len() + g1.len() + g2.len() + g3.len() + g4.len() + q].4) && cloned(self.6, out@[g0.len() + g1.len() + g2.len() + g3.len() + g4.len() + q].6) && cloned(self.7, out@[g0.len() + g1.len() + g2.len() + g3.len() + g4.len() + q].7),
                forall|q: int| 0 <= q < g6.len() ==> (#[trigger] out@[g0.len() + g1.len() + g2.len() + g3.len() + g4.len() + g5.len() + q]).6 == g6[q] && cloned(self.0, out@[g0.len() + g1.len() + g2.len() + g3.len() + g4.len() + g5.len() + q].0) && cloned(self.1, out@[g0.len() + g1.len() + g2.len() + g3.len() + g4.len() + g5.len() + q].1) && cloned(self.2, out@[g0.len() + g1.len() + g2.len() + g3.len() + g4.len() + g5.len() + q].2) && cloned(self.3, out@[g0.len() + g1.len() + g2.len() + g3.len() + g4.len() + g5.len() + q].3) && cloned(self.4, out@[g0.len() + g1.len() + g2.len() + g3.len() + g4.len() + g5.len() + q].4) && cloned(self.5, out@[g0.len() + g1.len() + g2.len() + g3.len() + g4.len() + g5.len() + q].5) && cloned(self.7, out@[g0.len() + g1.len() + g2.len() + g3.len() + g4.len() + g5.len() + q].7),
                forall|q: int| 0 <= q < k7 ==> (#[trigger] out@[g0.len() + g1.len() + g2.len() + g3.len() + g4.len() + g5.len() + g6.len() + q]).7 == g7[q] && cloned(self.0, out@[g0.len() + g1.len() + g2.len() + g3.len() + g4.len() + g5.len() + g6.len() + q].0) && cloned(self.1, out@[g0.len() + g1.len() + g2.len() + g3.len() + g4.len() + g5.len() + g6.len() + q].1) && cloned(self.2, out@[g0.len() + g1.len() + g2.len() + g3.len() + g4.len() + g5.len() + g6.len() + q].2) && cloned(self.3, out@[g0.len() + g1.len() + g2.len() + g3.len() + g4.len() + g5.len() + g6.len() + q].3) && cloned(self.4, out@[g0.len() + g1.len() + g2.len() + g3.len() + g4.len() + g5.len() + g6.len() + q].4) && cloned(self.5, out@[g0.len() + g1.len() + g2.len() + g3.len() + g4.len() + g5.len() + g6.len() + q].5) && cloned(self.6, out@[g0.len() + g1.len() + g2.len() + g3.len() + g4.len() + g5.len() + g6.len() + q].6),
            decreases c7@.len(),
        {
            let c = c7.remove(0);
            assert(c == g7[k7 as int]);
            assert(c7@ == g7.skip(k7 + 1));
            let ghost before = out@;
            out.push((self.0.clone(), self.1.clone(), self.2.clone(), self.3.clone(), self.4.clone(), self.5.clone(), self.6.clone(), c));
            assert forall|q: int| 0 <= q < g0.len() implies (#[trigger] out@[0 + q]).0 == g0[q] && cloned(self.1, out@[0 + q].1) && cloned(self.2, out@[0 + q].2) && cloned(self.3, out@[0 + q].3) && cloned(self.4, out@[0 + q].4) && cloned(self.5, out@[0 + q].5) && cloned(self.6, out@[0 + q].6) && cloned(self.7, out@[0 + q].7) by {
                assert(out@[0 + q] == before[0 + q]);
            }
            assert forall|q: int| 0 <= q < g1.len() implies (#[trigger] out@[g0.len() + q]).1 == g1[q] && cloned(self.0, out@[g0.len() + q].0) && cloned(self.2, out@[g0.len() + q].2) && cloned(self.3, out@[g0.len() + q].3) && cloned(self.4, out@[g0.len() + q].4) && cloned(self.5, out@[g0.len() + q].5) && cloned(self.6, out@[g0.len() + q].6) && cloned(self.7, out@[g0.len() + q].7) by {
                assert(out@[g0.len() + q] == before[g0.len() + q]);
            }
            assert forall|q: int| 0 <= q < g2.len() implies (#[trigger] out@[g0.len() + g1.len() + q]).2 == g2[q] && cloned(self.0, out@[g0.len() + g1.len() + q].0) && cloned(self.1, out@[g0.len() + g1.len() + q].1) && cloned(self.3, out@[g0.len() + g1.len() + q].3) && cloned(self.4, out@[g0.len() + g1.len() + q].4) && cloned(self.5, out@[g0.len() + g1.len() + q].5) && cloned(self.6, out@[g0.len() + g1.len() + q].6) && cloned(self.7, out@[g0.len() + g1.len() + q].7) by {
                assert(out@[g0.len() + g1.len() + q] == before[g0.len() + g1.len() + q]);
            }
            assert forall|q: int| 0 <= q < g3.len() implies (#[trigger] out@[g0.len() + g1.len() + g2.len() + q]).3 == g3[q] && cloned(self.0, out@[g0.len() + g1.len() + g2.len() + q].0) && cloned(self.1, out@[g0.len() + g1.len() + g2.len() + q].1) && cloned(self.2, out@[g0.len() + g1.len() + g2.len() + q].2) && cloned(self.4, out@[g0.len() + g1.len() + g2.len() + q].4) && cloned(self.5, out@[g0.len() + g1.len() + g2.len() + q].5) && cloned(self.6, out@[g0.len() + g1.len() + g2.len() + q].6) && cloned(self.7, out@[g0.len() + g1.len() + g2.len() + q].7) by {
                assert(out@[g0.len() + g1.len() + g2.len() + q] == before[g0.len() + g1.len() + g2.len() + q]);
            }
            assert forall|q: int| 0 <= q < g4.len() implies (#[trigger] out@[g0.len() + g1.len() + g2.len() + g3.len() + q]).4 == g4[q] && cloned(self.0, out@[g0.len() + g1.len() + g2.len() + g3.len() + q].0) && cloned(self.1, out@[g0.len() + g1.len() + g2.len() + g3.len() + q].1) && cloned(self.2, out@[g0.len() + g1.len() + g2.len() + g3.len() + q].2) && cloned(self.3, out@[g0.len() + g1.len() + g2.len() + g3.len() + q].3) && cloned(self.5, out@[g0.len() + g1.len() + g2.len() + g3.len() + q].5) && cloned(self.6, out@[g0.len() + g1.len() + g2.len() + g3.len() + q].6) && cloned(self.7, out@[g0.len() + g1.len() + g2.len() + g3.len() + q].7) by {
                assert(out@[g0.len() + g1.len() + g2.len() + g3.len() + q] == before[g0.len() + g1.len() + g2.len() + g3.len() + q]);
            }
            assert forall|q: int| 0 <= q < g5.len() implies (#[trigger] out@[g0.len() + g1.len() + g2.len() + g3.len() + g4.len() + q]).5 == g5[q] && cloned(self.0, out@[g0.len() + g1.len() + g2.len() + g3.len() + g4.len() + q].0) && cloned(self.1, out@[g0.len() + g1.len() + g2.len() + g3.len() + g4.len() + q].1) && cloned(self.2, out@[g0.len() + g1.len() + g2.len() + g3.len() + g4.len() + q].2) && cloned(self.3, out@[g0.len() + g1.len() + g2.len() + g3.len() + g4.len() + q].3) && cloned(self.4, out@[g0.len() + g1.len() + g2.len() + g3.len() + g4.len() + q].4) && cloned(self.6, out@[g0.len() + g1.len() + g2.len() + g3.len() + g4.len() + q].6) && cloned(self.7, out@[g0.len() + g1.len() + g2.len() + g3.len() + g4.len() + q].7) by {
                assert(out@[g0.len() + g1.len() + g2.len() + g3.len() + g4.len() + q] == before[g0.len() + g1.len() + g2.len() + g3.len() + g4.len() + q]);
            }
            assert forall|q: int| 0 <= q < g6.len() implies (#[trigger] out@[g0.len() + g1.len() + g2.len() + g3.len() + g4.len() + g5.len() + q]).6 == g6[q] && cloned(self.0, out@[g0.len() + g1.len() + g2.len() + g3.len() + g4.len() + g5.len() + q].0) && cloned(self.1, out@[g0.len() + g1.len() + g2.len() + g3.len() + g4.len() + g5.len() + q].1) && cloned(self.2, out@[g0.len() + g1.len() + g2.len() + g3.len() + g4.len() + g5.len() + q].2) && cloned(self.3, out@[g0.len() + g1.len() + g2.len() + g3.len() + g4.len() + g5.len() + q].3) && cloned(self.4, out@[g0.len() + g1.len() + g2.len() + g3.len() + g4.len() + g5.len() + q].4) && cloned(self.5, out@[g0.len() + g1.len() + g2.len() + g3.len() + g4.len() + g5.len() + q].5) && cloned(self.7, out@[g0.len() + g1.len() + g2.len() + g3.len() + g4.len() + g5.len() + q].7) by {
                assert(out@[g0.len() + g1.len() + g2.len() + g3.len() + g4.len() + g5.len() + q] == before[g0.len() + g1.len() + g2.len() + g3.len() + g4.len() + g5.len() + q]);
            }
            assert forall|q: int| 0 <= q < k7 + 1 implies (#[trigger] out@[g0.len() + g1.len() + g2.len() + g3.len() + g4.len() + g5.len() + g6.len() + q]).7 == g7[q] && cloned(self.0, out@[g0.len() + g1.len() + g2.len() + g3.len() + g4.len() + g5.len() + g6.len() + q].0) && cloned(self.1, out@[g0.len() + g1.len() + g2.len() + g3.len() + g4.len() + g5.len() + g6.len() + q].1) && cloned(self.2, out@[g0.len() + g1.len() + g2.len() + g3.len() + g4.len() + g5.len() + g6.len() + q].2) && cloned(self.3, out@[g0.len() + g1.len() + g2.len() + g3.len() + g4.len() + g5.len() + g6.len() + q].3) && cloned(self.4, out@[g0.len() + g1.len() + g2.len() + g3.len() + g4.len() + g5.len() + g6.len() + q].4) && cloned(self.5, out@[g0.len() + g1.len() + g2.len() + g3.len() + g4.len() + g5.len() + g6.len() + q].5) && cloned(self.6, out@[g0.len() + g1.len() + g2.len() + g3.len() + g4.len() + g5.len() + g6.len() + q].6) by {
                if q < k7 {
                    assert(out@[g0.len() + g1.len() + g2.len() + g3.len() + g4.len() + g5.len() + g6.len() + q] == before[g0.len() + g1.len() + g2.len() + g3.len() + g4.len() + g5.len() + g6.len() + q]);
                }
            }
            k7 = k7 + 1;
        }
        proof {
            assert(self.0.shrinks_to(g0));
            assert(self.1.shrinks_to(g1));
            assert(self.2.shrinks_to(g2));
            assert(self.3.shrinks_to(g3));
            assert(self.4.shrinks_to(g4));
            assert(self.5.shrinks_to(g5));
            assert(self.6.shrinks_to(g6));
            assert(self.7.shrinks_to(g7));
        }
        out
    }
}

impl Arbitrary for () {
    open spec fn shrinks_to(&self, r: Seq<()>) -> bool {
        r.len() == 0
    }

    /// Nothing is drawn.
    open spec fn arbitrary_from(before: Stream, after: Stream, size: usize, v: ()) -> bool {
        after == before
    }

    fn arbitrary<R: Rng>(rng: &mut R, size: usize) -> (r: ()) {
    }

    fn shrink(&self) -> (r: Vec<()>) {
        Vec::new()
    }
}

impl<A: Arbitrary> Arbitrary for (A,) {
    open spec fn shrinks_to(&self, r: Seq<(A,)>) -> bool {
        exists|s: Seq<A>|
            {
                &&& self.0.shrinks_to(s)
                &&& r.len() == s.len()
                &&& forall|k: int| 0 <= k < s.len() ==> (#[trigger] r[k]).0 == s[k]
            }
    }

    /// The component generated.
    open spec fn arbitrary_from(before: Stream, after: Stream, size: usize, v: (A,)) -> bool {
        A::arbitrary_from(before, after, size, v.0)
    }

    fn arbitrary<R: Rng>(rng: &mut R, size: usize) -> (r: (A,)) {
        (A::arbitrary(rng, size),)
    }

    /// The component's candidates.
    fn shrink(&self) -> (r: Vec<(A,)>) {
        let mut c = self.0.shrink();
        let ghost g = c@;
        assert(g.len() == c.len());
        let mut out: Vec<(A,)> = Vec::new();
        let mut k: usize = 0;
        while c.len() > 0
            invariant
                k <= g.len(),
                g.len() <= usize::MAX,
                c@ == g.skip(k as int),
                out@.len() == k,
                forall|q: int| 0 <= q < k ==> (#[trigger] out@[q]).0 == g[q],
            decreases c@.len(),
        {
            let x = c.remove(0);
            assert(x == g[k as int]);
            assert(c@ == g.skip(k + 1));
            out.push((x,));
            k = k + 1;
        }
        proof {
            assert(self.0.shrinks_to(g));
        }
        out
    }
}

impl<T: Arbitrary> Arbitrary for Option<T> {
    /// `None` has no candidates; `Some(x)` shrinks to `None`, then to
    /// `Some` of each of `x`'s candidates.
    open spec fn shrinks_to(&self, r: Seq<Option<T>>) -> bool {
        match self {
            None => r.len() == 0,
            Some(x) => exists|s: Seq<T>|
                {
                    &&& x.shrinks_to(s)
                    &&& r.len() == s.len() + 1
                    &&& r[0] is None
                    &&& forall|k: int| 0 <= k < s.len() ==> #[trigger] r[k + 1] == Some(s[k])
                },
        }
    }

    open spec fn arbitrary_from(before: Stream, after: Stream, size: usize, v: Option<T>) -> bool {
        &&& v is Some <==> before(0) % 2 == 1
    }

    /// `Some` of a generated value when the next word is odd, else `None`.
    fn arbitrary<R: Rng>(rng: &mut R, size: usize) -> (r: Option<T>)
        ensures
            r is Some <==> old(rng).nth_output(0) % 2 == 1,
    {
        if rng.gen_bool() {
            Some(T::arbitrary(rng, size))
        } else {
            None
        }
    }

    fn shrink(&self) -> (r: Vec<Option<T>>) {
        match self {
            None => Vec::new(),
            Some(x) => {
                let mut out: Vec<Option<T>> = Vec::new();
                out.push(None);
                let mut c = x.shrink();
                let ghost g = c@;
                assert(g.len() == c.len());
                let mut k: usize = 0;
                while c.len() > 0
                    invariant
                        k <= g.len(),
                        g.len() <= usize::MAX,
                        c@ == g.skip(k as int),
                        out@.len() == k + 1,
                        out@[0] is None,
                        forall|q: int| 0 <= q < k ==> #[trigger] out@[q + 1] == Some(g[q]),
                    decreases c@.len(),
                {
                    let y = c.remove(0);
                    assert(y == g[k as int]);
                    assert(c@ == g.skip(k + 1));
                    let ghost before = out@;
                    out.push(Some(y));
                    assert forall|q: int| 0 <= q < k + 1 implies #[trigger] out@[q + 1] == Some(g[q]) by {
                        if q < k {
                            assert(out@[q + 1] == before[q + 1]);
                        }
                    }
                    k = k + 1;
                }
                proof {
                    assert(x.shrinks_to(g));
                }
                out
            },
        }
    }
}

impl<T: Arbitrary, E: Arbitrary> Arbitrary for Result<T, E> {
    /// `Ok(t)` shrinks to `Ok` of each of `t`'s candidates; `Err(e)` to
    /// `Err` of each of `e`'s.
    open spec fn shrinks_to(&self, r: Seq<Result<T, E>>) -> bool {
        match self {
            Ok(t) => exists|s: Seq<T>|
                {
                    &&& t.shrinks_to(s)
                    &&& r.len() == s.len()
                    &&& forall|k: int| 0 <= k < s.len() ==> #[trigger] r[k] == Ok::<T, E>(s[k])
                },
            Err(e) => exists|s: Seq<E>|
                {
                    &&& e.shrinks_to(s)
                    &&& r.len() == s.len()
                    &&& forall|k: int| 0 <= k < s.len() ==> #[trigger] r[k] == Err::<T, E>(s[k])
                },
        }
    }

    open spec fn arbitrary_from(before: Stream, after: Stream, size: usize, v: Result<T, E>) -> bool {
        &&& v is Ok <==> before(0) % 2 == 1
    }

    /// `Ok` of a generated value when the next word is odd, else `Err`.
    fn arbitrary<R: Rng>(rng: &mut R, size: usize) -> (r: Result<T, E>)
        ensures
            r is Ok <==> old(rng).nth_output(0) % 2 == 1,
    {
        if rng.gen_bool() {
            Ok(T::arbitrary(rng, size))
        } else {
            Err(E::arbitrary(rng, size))
        }
    }

    fn shrink(&self) -> (r: Vec<Result<T, E>>) {
        match self {
            Ok(t) => {
                let mut out: Vec<Result<T, E>> = Vec::new();
                let mut c = t.shrink();
                let ghost g = c@;
                assert(g.len() == c.len());
                let mut k: usize = 0;
                while c.len() > 0
                    invariant
                        k <= g.len(),
                        g.len() <= usize::MAX,
                        c@ == g.skip(k as int),
                        out@.len() == k,
                        forall|q: int| 0 <= q < k ==> #[trigger] out@[q] == Ok::<T, E>(g[q]),
                    decreases c@.len(),
                {
                    let y = c.remove(0);
                    assert(y == g[k as int]);
                    assert(c@ == g.skip(k + 1));
                    out.push(Ok(y));
                    k = k + 1;
                }
                proof {
                    assert(t.shrinks_to(g));
                }
                out
            },
            Err(e) => {
                let mut out: Vec<Result<T, E>> = Vec::new();
                let mut c = e.shrink();
                let ghost g = c@;
                assert(g.len() == c.len());
                let mut k: usize = 0;
                while c.len() > 0
                    invariant
                        k <= g.len(),
                        g.len() <= usize::MAX,
                        c@ == g.skip(k as int),
                        out@.len() == k,
                        forall|q: int| 0 <= q < k ==> #[trigger] out@[q] == Err::<T, E>(g[q]),
                    decreases c@.len(),
                {
                    let y = c.remove(0);
                    assert(y == g[k as int]);
                    assert(c@ == g.skip(k + 1));
                    out.push(Err(y));
                    k = k + 1;
                }
                proof {
                    assert(e.shrinks_to(g));
                }
                out
            },
        }
    }
}

impl<T: Arbitrary> Arbitrary for Box<T> {
    /// The candidates of the boxed value, boxed.
    open spec fn shrinks_to(&self, r: Seq<Box<T>>) -> bool {
        exists|s: Seq<T>|
            {
                &&& (**self).shrinks_to(s)
                &&& r.len() == s.len()
                &&& forall|k: int| 0 <= k < s.len() ==> *(#[trigger] r[k]) == s[k]
            }
    }

    /// The boxed value generated.
    open spec fn arbitrary_from(before: Stream, after: Stream, size: usize, v: Box<T>) -> bool {
        T::arbitrary_from(before, after, size, *v)
    }

    fn arbitrary<R: Rng>(rng: &mut R, size: usize) -> (r: Box<T>) {
        Box::new(T::arbitrary(rng, size))
    }

    fn shrink(&self) -> (r: Vec<Box<T>>) {
        let mut c = (**self).shrink();
        let ghost g = c@;
        assert(g.len() == c.len());
        let mut out: Vec<Box<T>> = Vec::new();
        let mut k: usize = 0;
        while c.len() > 0
            invariant
                k <= g.len(),
                g.len() <= usize::MAX,
                c@ == g.skip(k as int),
                out@.len() == k,
                forall|q: int| 0 <= q < k ==> *(#[trigger] out@[q]) == g[q],
            decreases c@.len(),
        {
            let x = c.remove(0);
            assert(x == g[k as int]);
            assert(c@ == g.skip(k + 1));
            out.push(Box::new(x));
            k = k + 1;
        }
        proof {
            assert((**self).shrinks_to(g));
        }
        out
    }
}

impl Arbitrary for String {
    /// The candidates of the string's characters as a vector, as strings.
    open spec fn shrinks_to(&self, r: Seq<String>) -> bool {
        exists|cs: Seq<Vec<char>>, origin: Seq<int>|
            {
                &&& seq_shrink_layout(self@, cs, origin)
                &&& r.len() == cs.len()
                &&& forall|k: int| 0 <= k < r.len() ==> #[trigger] r[k]@ == cs[k]@
            }
    }

    /// The characters as a vector of `char` would draw them.
    open spec fn arbitrary_from(before: Stream, after: Stream, size: usize, v: String) -> bool {
        vec_drawn(before, after, size, v@)
    }

    /// A length drawn below [`len_bound`], then that many characters.
    fn arbitrary<R: Rng>(rng: &mut R, size: usize) -> (r: String)
        ensures
            r@.len() == old(rng).nth_output(0) as int % len_bound(size) as int,
    {
        let cs = <Vec<char> as Arbitrary>::arbitrary(rng, size);
        crate::text::string_from_chars(&cs)
    }

    fn shrink(&self) -> (r: Vec<String>) {
        let cs = crate::text::chars_of(self);
        let cands = cs.shrink();
        let ghost origin = choose|origin: Seq<int>| seq_shrink_layout(cs@, cands@, origin);
        let mut out: Vec<String> = Vec::new();
        let mut k: usize = 0;
        while k < cands.len()
            invariant
                k <= cands@.len(),
                out@.len() == k,
                forall|q: int| 0 <= q < k ==> #[trigger] out@[q]@ == cands@[q]@,
            decreases cands@.len() - k,
        {
            out.push(crate::text::string_from_chars(&cands[k]));
            k = k + 1;
        }
        proof {
            assert(seq_shrink_layout(self@, cands@, origin));
        }
        out
    }
}


/// `T`'s generator is deterministic: from the same words with the same size
/// it hands out the same value and leaves the same words.
pub open spec fn draws_deterministically<T: Arbitrary>() -> bool {
    forall|b: Stream, a1: Stream, a2: Stream, size: usize, v1: T, v2: T|
        #[trigger] T::arbitrary_from(b, a1, size, v1) && #[trigger] T::arbitrary_from(b, a2, size, v2) ==> a1 == a2 && v1 == v2
}

/// The `u8` generator is deterministic.
pub proof fn law_u8_draws_deterministically()
    ensures
        draws_deterministically::<u8>(),
{
    assert forall|b: Stream, a1: Stream, a2: Stream, size: usize, v1: u8, v2: u8|
        #[trigger] u8::arbitrary_from(b, a1, size, v1) && #[trigger] u8::arbitrary_from(b, a2, size, v2) implies a1 == a2 && v1 == v2 by {
        assert(a1 =~= a2);
    }
}

/// The `u16` generator is deterministic.
pub proof fn law_u16_draws_deterministically()
    ensures
        draws_deterministically::<u16>(),
{
    assert forall|b: Stream, a1: Stream, a2: Stream, size: usize, v1: u16, v2: u16|
        #[trigger] u16::arbitrary_from(b, a1, size, v1) && #[trigger] u16::arbitrary_from(b, a2, size, v2) implies a1 == a2 && v1 == v2 by {
        assert(a1 =~= a2);
    }
}

/// The `u32` generator is deterministic.
pub proof fn law_u32_draws_deterministically()
    ensures
        draws_deterministically::<u32>(),
{
    assert forall|b: Stream, a1: Stream, a2: Stream, size: usize, v1: u32, v2: u32|
        #[trigger] u32::arbitrary_from(b, a1, size, v1) && #[trigger] u32::arbitrary_from(b, a2, size, v2) implies a1 == a2 && v1 == v2 by {
        assert(a1 =~= a2);
    }
}

/// The `u64` generator is deterministic.
pub proof fn law_u64_draws_deterministically()
    ensures
        draws_deterministically::<u64>(),
{
    assert forall|b: Stream, a1: Stream, a2: Stream, size: usize, v1: u64, v2: u64|
        #[trigger] u64::arbitrary_from(b, a1, size, v1) && #[trigger] u64::arbitrary_from(b, a2, size, v2) implies a1 == a2 && v1 == v2 by {
        assert(a1 =~= a2);
    }
}

/// The `usize` generator is deterministic.
pub proof fn law_usize_draws_deterministically()
    ensures
        draws_deterministically::<usize>(),
{
    assert forall|b: Stream, a1: Stream, a2: Stream, size: usize, v1: usize, v2: usize|
        #[trigger] usize::arbitrary_from(b, a1, size, v1) && #[trigger] usize::arbitrary_from(b, a2, size, v2) implies a1 == a2 && v1 == v2 by {
        assert(a1 =~= a2);
    }
}

/// The `i8` generator is deterministic.
pub proof fn law_i8_draws_deterministically()
    ensures
        draws_deterministically::<i8>(),
{
    assert forall|b: Stream, a1: Stream, a2: Stream, size: usize, v1: i8, v2: i8|
        #[trigger] i8::arbitrary_from(b, a1, size, v1) && #[trigger] i8::arbitrary_from(b, a2, size, v2) implies a1 == a2 && v1 == v2 by {
        assert(a1 =~= a2);
    }
}

/// The `i16` generator is deterministic.
pub proof fn law_i16_draws_deterministically()
    ensures
        draws_deterministically::<i16>(),
{
    assert forall|b: Stream, a1: Stream, a2: Stream, size: usize, v1: i16, v2: i16|
        #[trigger] i16::arbitrary_from(b, a1, size, v1) && #[trigger] i16::arbitrary_from(b, a2, size, v2) implies a1 == a2 && v1 == v2 by {
        assert(a1 =~= a2);
    }
}

/// The `i32` generator is deterministic.
pub proof fn law_i32_draws_deterministically()
    ensures
        draws_deterministically::<i32>(),
{
    assert forall|b: Stream, a1: Stream, a2: Stream, size: usize, v1: i32, v2: i32|
        #[trigger] i32::arbitrary_from(b, a1, size, v1) && #[trigger] i32::arbitrary_from(b, a2, size, v2) implies a1 == a2 && v1 == v2 by {
        assert(a1 =~= a2);
    }
}

/// The `i64` generator is deterministic.
pub proof fn law_i64_draws_deterministically()
    ensures
        draws_deterministically::<i64>(),
{
    assert forall|b: Stream, a1: Stream, a2: Stream, size: usize, v1: i64, v2: i64|
        #[trigger] i64::arbitrary_from(b, a1, size, v1) && #[trigger] i64::arbitrary_from(b, a2, size, v2) implies a1 == a2 && v1 == v2 by {
        assert(a1 =~= a2);
    }
}

/// The `bool` generator is deterministic.
pub proof fn law_bool_draws_deterministically()
    ensures
        draws_deterministically::<bool>(),
{
    assert forall|b: Stream, a1: Stream, a2: Stream, size: usize, v1: bool, v2: bool|
        #[trigger] bool::arbitrary_from(b, a1, size, v1) && #[trigger] bool::arbitrary_from(b, a2, size, v2) implies a1 == a2 && v1 == v2 by {
        assert(a1 =~= a2);
    }
}

/// Two runs of a deterministic element generator in turn from the same
/// words agree on their first `n` values and the words they leave there.
proof fn lemma_in_turn_agree<T: Arbitrary>(s1: Seq<Stream>, s2: Seq<Stream>, size: usize, vs1: Seq<T>, vs2: Seq<T>, n: int)
    requires
        draws_deterministically::<T>(),
        generated_in_turn(s1, size, vs1),
        generated_in_turn(s2, size, vs2),
        s1[0] == s2[0],
        0 <= n <= vs1.len(),
        n <= vs2.len(),
    ensures
        vs1.take(n) == vs2.take(n),
        s1[n] == s2[n],
    decreases n,
{
    if n > 0 {
        lemma_in_turn_agree(s1, s2, size, vs1, vs2, n - 1);
        let i = n - 1;
        assert(T::arbitrary_from(s1[i], s1[i + 1], size, vs1[i]));
        assert(T::arbitrary_from(s2[i], s2[i + 1], size, vs2[i]));
        assert(vs1.take(n) =~= vs2.take(n)) by {
            assert forall|j: int| 0 <= j < n implies vs1.take(n)[j] == vs2.take(n)[j] by {
                if j < i {
                    assert(vs1.take(i)[j] == vs2.take(i)[j]);
                }
            }
        }
    }
}

/// A vector generator over a deterministic element generator is
/// deterministic: from the same words with the same size it hands out
/// vectors with the same elements and leaves the same words.
pub proof fn law_vec_draws_deterministically<T: Arbitrary + Clone>()
    requires
        draws_deterministically::<T>(),
    ensures
        forall|b: Stream, a1: Stream, a2: Stream, size: usize, v1: Vec<T>, v2: Vec<T>|
            #[trigger] Vec::<T>::arbitrary_from(b, a1, size, v1) && #[trigger] Vec::<T>::arbitrary_from(b, a2, size, v2) ==> a1 == a2 && v1@ == v2@,
{
    assert forall|b: Stream, a1: Stream, a2: Stream, size: usize, v1: Vec<T>, v2: Vec<T>|
        #[trigger] Vec::<T>::arbitrary_from(b, a1, size, v1) && #[trigger] Vec::<T>::arbitrary_from(b, a2, size, v2) implies a1 == a2 && v1@ == v2@ by {
        let s1 = choose|states: Seq<Stream>| generated_in_turn(states, size, v1@) && states[0] == (|k: nat| b(k + 1)) && states.last() == a1;
        let s2 = choose|states: Seq<Stream>| generated_in_turn(states, size, v2@) && states[0] == (|k: nat| b(k + 1)) && states.last() == a2;
        lemma_in_turn_agree(s1, s2, size, v1@, v2@, v1@.len() as int);
        assert(v1@.take(v1@.len() as int) == v1@);
        assert(v2@.take(v2@.len() as int) == v2@);
        assert(v1@ == v2@);
    }
}

} // verus!
