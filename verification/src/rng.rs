//! A small deterministic pseudo-random number generator.
//!
//! [`XorShift64`] implements Marsaglia/Vigna's xorshift64* algorithm. It is
//! not cryptographically secure, but it is fast and fully determined by its
//! seed, which is what randomized testing needs.
//!
//! Every generator is modelled by the stream of 64-bit words it will hand out:
//! [`Rng::nth_output`] is the `k`-th word still to come. Drawing a word returns
//! the head of that stream and leaves the rest of it in place.
use vstd::prelude::*;

verus! {

/// The words a generator will hand out, in order.
pub type Stream = spec_fn(nat) -> u64;

/// The words `r` will hand out, in order.
pub open spec fn outputs<R: Rng>(r: R) -> Stream {
    |k: nat| r.nth_output(k)
}

/// Byte `j` (0 = least significant) of the little-endian encoding of `x`.
pub open spec fn le_byte(x: u64, j: int) -> u8 {
    ((x >> ((8 * j) as u64)) & 0xff) as u8
}

/// The minimal pseudo-random generator interface used by every generator in
/// this crate. Implementors provide [`Rng::next_u64`]; the other methods are
/// derived from it.
pub trait Rng: Sized {
    /// The `k`-th 64-bit word this generator will return from now on.
    spec fn nth_output(&self, k: nat) -> u64;

    /// Returns the next 64-bit word.
    fn next_u64(&mut self) -> (r: u64)
        ensures
            r == old(self).nth_output(0),
            forall|k: nat| #[trigger] final(self).nth_output(k) == old(self).nth_output(k + 1),
    ;

    /// Returns the low 32 bits of the next word.
    fn next_u32(&mut self) -> (r: u32)
        ensures
            r == (old(self).nth_output(0) & 0xffff_ffff) as u32,
            forall|k: nat| #[trigger] final(self).nth_output(k) == old(self).nth_output(k + 1),
    {
        let x = self.next_u64();
        let r = (x & 0xffff_ffff) as u32;
        r
    }

    /// Returns the lowest bit of the next word as a `bool`.
    fn gen_bool(&mut self) -> (r: bool)
        ensures
            r == (old(self).nth_output(0) % 2 == 1),
            forall|k: nat| #[trigger] final(self).nth_output(k) == old(self).nth_output(k + 1),
    {
        let x = self.next_u64();
        assert((x & 1) == x % 2) by (bit_vector);
        (x & 1) == 1
    }

    /// Returns a `u64` in `[lo, hi)`, reducing the next word modulo the span.
    fn gen_range_u64(&mut self, lo: u64, hi: u64) -> (r: u64)
        requires
            lo < hi,
        ensures
            r == lo + old(self).nth_output(0) % ((hi - lo) as u64),
            lo <= r < hi,
            forall|k: nat| #[trigger] final(self).nth_output(k) == old(self).nth_output(k + 1),
    {
        let span = hi - lo;
        let x = self.next_u64();
        lo + x % span
    }

    /// Returns an `i64` in `[lo, hi)`.
    fn gen_range_i64(&mut self, lo: i64, hi: i64) -> (r: i64)
        requires
            lo < hi,
        ensures
            r == lo + old(self).nth_output(0) as int % (hi - lo),
            lo <= r < hi,
            forall|k: nat| #[trigger] final(self).nth_output(k) == old(self).nth_output(k + 1),
    {
        let span: u128 = (hi as i128 - lo as i128) as u128;
        let x = self.next_u64();
        let r: u128 = (x as u128) % span;
        (lo as i128 + r as i128) as i64
    }

    /// Returns a `usize` in `[lo, hi)`.
    fn gen_range_usize(&mut self, lo: usize, hi: usize) -> (r: usize)
        requires
            lo < hi,
        ensures
            r == lo + old(self).nth_output(0) as int % (hi - lo),
            lo <= r < hi,
            forall|k: nat| #[trigger] final(self).nth_output(k) == old(self).nth_output(k + 1),
    {
        let span = (hi - lo) as u64;
        let x = self.next_u64();
        lo + (x % span) as usize
    }

    /// Fills `buf` with the little-endian bytes of successive words.
    fn fill_bytes(&mut self, buf: &mut [u8])
        ensures
            final(buf)@.len() == old(buf)@.len(),
            forall|i: int|
                0 <= i < old(buf)@.len() ==> #[trigger] final(buf)@[i] == le_byte(
                    old(self).nth_output((i / 8) as nat),
                    i % 8,
                ),
            forall|k: nat| #[trigger] final(self).nth_output(k) == old(self).nth_output(k + ((old(buf)@.len() + 7) / 8) as nat),
    {
        let len = buf.len();
        let mut i: usize = 0;
        let ghost start = *self;
        let ghost mut draws: nat = 0;
        while i < len
            invariant
                buf@.len() == len,
                len == old(buf)@.len(),
                i <= len,
                i % 8 == 0 || i == len,
                draws == (i + 7) / 8,
                forall|k: nat| #[trigger] self.nth_output(k) == start.nth_output(k + draws),
                start == *old(self),
                forall|p: int|
                    0 <= p < i ==> #[trigger] buf@[p] == le_byte(
                        start.nth_output((p / 8) as nat),
                        p % 8,
                    ),
            decreases len - i,
        {
            let ghost before = *self;
            let x = self.next_u64();
            proof {
                assert(draws == i / 8);
                assert(x == start.nth_output((i / 8) as nat));
            }
            let n: usize = if len - i < 8 { len - i } else { 8 };
            let mut j: usize = 0;
            while j < n
                invariant
                    buf@.len() == len,
                    i + n <= len,
                    0 < n <= 8,
                    j <= n,
                    i % 8 == 0,
                    x == start.nth_output((i / 8) as nat),
                    forall|p: int|
                        0 <= p < i + j ==> #[trigger] buf@[p] == le_byte(
                            start.nth_output((p / 8) as nat),
                            p % 8,
                        ),
                decreases n - j,
            {
                let b: u8 = ((x >> (8 * j as u64)) & 0xff) as u8;
                buf[i + j] = b;
                proof {
                    let p = (i + j) as int;
                    assert(p / 8 == i / 8 && p % 8 == j) by (nonlinear_arith)
                        requires
                            i % 8 == 0,
                            j < 8,
                            p == i + j,
                    ;
                }
                j = j + 1;
            }
            proof {
                let old_i = i as int;
                assert((old_i + n + 7) / 8 == old_i / 8 + 1) by (nonlinear_arith)
                    requires
                        old_i % 8 == 0,
                        0 < n <= 8,
                ;
                draws = draws + 1;
                assert forall|k: nat| #[trigger] self.nth_output(k) == start.nth_output(k + draws) by {
                    assert(self.nth_output(k) == before.nth_output(k + 1));
                }
            }
            i = i + n;
        }
    }

    /// Returns a uniformly chosen element of `slice`, or `None` when it is empty.
    fn choose_one<'a, T>(&mut self, slice: &'a [T]) -> (r: Option<&'a T>)
        ensures
            slice@.len() == 0 ==> r is None && *final(self) == *old(self),
            slice@.len() > 0 ==> r == Some(
                &slice@[(old(self).nth_output(0) as int % (slice@.len() as int))],
            ) && forall|k: nat| #[trigger] final(self).nth_output(k) == old(self).nth_output(k + 1),
    {
        if slice.len() == 0 {
            None
        } else {
            let i = self.gen_range_usize(0, slice.len());
            Some(&slice[i])
        }
    }
}

/// One xorshift step of the generator state.
pub open spec fn xorshift_step(x: u64) -> u64 {
    let a = x ^ (x >> 12u64);
    let b = a ^ (a << 25u64);
    b ^ (b >> 27u64)
}

/// The multiplier of the xorshift64* output scramble.
pub const XORSHIFT_MULTIPLIER: u64 = 0x2545_F491_4F6C_DD1D;

/// The word handed out for a given (already stepped) state.
pub open spec fn xorshift_scramble(x: u64) -> u64 {
    ((x as nat * XORSHIFT_MULTIPLIER as nat) % 0x1_0000_0000_0000_0000nat) as u64
}

/// The state after `n` steps.
pub open spec fn xorshift_iter(x: u64, n: nat) -> u64
    decreases n,
{
    if n == 0 {
        x
    } else {
        xorshift_step(xorshift_iter(x, (n - 1) as nat))
    }
}

/// The state that replaces a zero seed, which would make the generator emit
/// zero forever.
pub const ZERO_SEED_REPLACEMENT: u64 = 0x9E37_79B9_7F4A_7C15;

/// The state that [`XorShift64::seed_from_u64`] starts from.
pub open spec fn seeded_state(seed: u64) -> u64 {
    if seed == 0 {
        ZERO_SEED_REPLACEMENT
    } else {
        seed
    }
}

/// The xorshift64* pseudo-random generator, fully determined by its seed.
#[derive(Debug)]
pub struct XorShift64 {
    state: u64,
}

impl XorShift64 {
    /// The current state.
    pub closed spec fn spec_state(&self) -> u64 {
        self.state
    }

    /// The state is never zero.
    #[verifier::type_invariant]
    closed spec fn state_nonzero(&self) -> bool {
        self.state != 0
    }

    /// Builds a generator from any seed; a zero seed is replaced by a fixed
    /// non-zero constant.
    pub fn seed_from_u64(seed: u64) -> (r: Self)
        ensures
            r.spec_state() == seeded_state(seed),
            r.spec_state() != 0,
    {
        let state = if seed == 0 {
            ZERO_SEED_REPLACEMENT
        } else {
            seed
        };
        XorShift64 { state }
    }

    /// The current internal state, which is also a seed that reproduces the
    /// rest of the stream.
    pub fn state(&self) -> (r: u64)
        ensures
            r == self.spec_state(),
            r != 0,
    {
        proof {
            use_type_invariant(self);
        }
        self.state
    }
}

/// A non-zero state stays non-zero under one xorshift step.
pub proof fn lemma_xorshift_step_nonzero(x: u64)
    requires
        x != 0,
    ensures
        xorshift_step(x) != 0,
{
    let a = x ^ (x >> 12u64);
    let b = a ^ (a << 25u64);
    assert(x != 0 ==> (x ^ (x >> 12u64)) != 0) by (bit_vector);
    assert(a != 0 ==> (a ^ (a << 25u64)) != 0) by (bit_vector);
    assert(b != 0 ==> (b ^ (b >> 27u64)) != 0) by (bit_vector);
}

/// Stepping `n + 1` times is stepping `n` times from the stepped state.
pub proof fn lemma_xorshift_iter_succ(x: u64, n: nat)
    ensures
        xorshift_iter(xorshift_step(x), n) == xorshift_iter(x, n + 1),
    decreases n,
{
    reveal_with_fuel(xorshift_iter, 2);
    if n > 0 {
        lemma_xorshift_iter_succ(x, (n - 1) as nat);
    }
}

impl Clone for XorShift64 {
    fn clone(&self) -> (r: Self)
        ensures
            r.spec_state() == self.spec_state(),
    {
        proof {
            use_type_invariant(self);
        }
        XorShift64 { state: self.state }
    }
}

/// The words a generator seeded with `seed` hands out, in order.
pub open spec fn seed_stream(seed: u64) -> Stream {
    |k: nat| xorshift_scramble(xorshift_iter(seeded_state(seed), k + 1))
}

/// A generator freshly seeded with `seed` hands out [`seed_stream`].
pub proof fn lemma_seed_stream(seed: u64, g: XorShift64)
    requires
        g.spec_state() == seeded_state(seed),
    ensures
        outputs(g) == seed_stream(seed),
{
    assert(outputs(g) =~= seed_stream(seed));
}

impl Rng for XorShift64 {
    open spec fn nth_output(&self, k: nat) -> u64 {
        xorshift_scramble(xorshift_iter(self.spec_state(), k + 1))
    }

    fn next_u64(&mut self) -> (r: u64)
        ensures
            final(self).spec_state() == xorshift_step(old(self).spec_state()),
            r == xorshift_scramble(xorshift_step(old(self).spec_state())),
    {
        proof {
            use_type_invariant(&*self);
        }
        let mut x = self.state;
        x ^= x >> 12;
        x ^= x << 25;
        x ^= x >> 27;
        proof {
            lemma_xorshift_step_nonzero(self.state);
        }
        let ghost old_state = self.state;
        self.state = x;
        proof {
            assert forall|k: nat| #[trigger]
                xorshift_iter(x, k + 1) == xorshift_iter(old_state, k + 1 + 1) by {
                lemma_xorshift_iter_succ(old_state, k + 1);
            }
            assert(x == xorshift_step(old_state));
            reveal_with_fuel(xorshift_iter, 2);
            assert(xorshift_iter(old_state, 1) == x);
        }
        x.wrapping_mul(XORSHIFT_MULTIPLIER)
    }
}

/// Two generators in the same state hand out the same stream: a run is
/// reproduced by its seed.
pub proof fn law_same_state_same_stream(a: XorShift64, b: XorShift64, k: nat)
    requires
        a.spec_state() == b.spec_state(),
    ensures
        a.nth_output(k) == b.nth_output(k),
{
}

/// Generators seeded alike hand out the same stream.
pub proof fn law_same_seed_same_stream(seed: u64, a: XorShift64, b: XorShift64, k: nat)
    requires
        a.spec_state() == seeded_state(seed),
        b.spec_state() == seeded_state(seed),
    ensures
        a.nth_output(k) == b.nth_output(k),
{
}

/// No state reachable from a seed is zero, so the stream never degenerates
/// to all zeros.
pub proof fn law_state_never_zero(seed: u64, n: nat)
    ensures
        xorshift_iter(seeded_state(seed), n) != 0,
    decreases n,
{
    if n > 0 {
        law_state_never_zero(seed, (n - 1) as nat);
        lemma_xorshift_step_nonzero(xorshift_iter(seeded_state(seed), (n - 1) as nat));
    }
}

} // verus!
