//! The candidate sequences that integers shrink through.
//!
//! A failing integer `n` is first tried as `0`, then as `n - n/2`, `n - n/4`,
//! `n - n/8`, … — values that approach `n` from below, so the runner can walk
//! toward the smallest magnitude that still fails. Signed integers try their
//! absolute value right after `0`, and walk toward zero from their own side.
use vstd::prelude::*;

verus! {

/// `n - d/2, n - d/4, …` for as long as the halved distance is non-zero.
pub open spec fn halvings(n: nat, d: nat) -> Seq<nat>
    decreases d,
{
    if d / 2 == 0 {
        seq![]
    } else {
        seq![(n - d / 2) as nat] + halvings(n, d / 2)
    }
}

/// The shrink candidates of an unsigned magnitude `n`: `0`, then the halvings.
pub open spec fn toward_zero(n: nat) -> Seq<nat> {
    if n == 0 {
        seq![]
    } else {
        seq![0nat] + halvings(n, n)
    }
}

/// The shrink candidates of a signed `n` whose type's largest value is `max`:
/// `0`, then `-n` when `n` is negative and `-n` fits, then the halvings of the
/// magnitude, on `n`'s side of zero.
pub open spec fn signed_toward_zero(n: int, max: int) -> Seq<int> {
    if n == 0 {
        seq![]
    } else {
        let m: nat = if n < 0 { (-n) as nat } else { n as nat };
        let flip: Seq<int> = if n < 0 && -n <= max { seq![-n] } else { seq![] };
        seq![0int] + flip + halvings(m, m).map_values(
            |c: nat| if n < 0 { -(c as int) } else { c as int },
        )
    }
}

/// The halvings of `n` below distance `d` lie strictly between `n - d/2 - 1`
/// and `n`, and strictly increase.
pub proof fn lemma_halvings_bounds(n: nat, d: nat)
    requires
        d <= n,
    ensures
        forall|i: int|
            0 <= i < halvings(n, d).len() ==> n - d / 2 <= #[trigger] halvings(n, d)[i] < n,
        forall|i: int, j: int|
            0 <= i < j < halvings(n, d).len() ==> #[trigger] halvings(n, d)[i] < #[trigger] halvings(
                n,
                d,
            )[j],
        halvings(n, d).len() <= d,
    decreases d,
{
    if d / 2 != 0 {
        lemma_halvings_bounds(n, d / 2);
        let rest = halvings(n, d / 2);
        assert(halvings(n, d) == seq![(n - d / 2) as nat] + rest);
        assert forall|i: int, j: int|
            0 <= i < j < halvings(n, d).len() implies #[trigger] halvings(n, d)[i]
            < #[trigger] halvings(n, d)[j] by {
            if i == 0 {
                assert(halvings(n, d)[j] == rest[j - 1]);
            } else {
                assert(halvings(n, d)[i] == rest[i - 1]);
                assert(halvings(n, d)[j] == rest[j - 1]);
            }
        }
        assert forall|i: int|
            0 <= i < halvings(n, d).len() implies n - d / 2 <= #[trigger] halvings(n, d)[i] < n by {
            if i > 0 {
                assert(halvings(n, d)[i] == rest[i - 1]);
            }
        }
    }
}

/// Every shrink candidate of `n` is strictly smaller than `n`, the first is
/// `0`, and no candidate repeats (they strictly increase).
pub proof fn law_toward_zero_shrinks(n: nat)
    ensures
        forall|i: int| 0 <= i < toward_zero(n).len() ==> #[trigger] toward_zero(n)[i] < n,
        forall|i: int, j: int|
            0 <= i < j < toward_zero(n).len() ==> #[trigger] toward_zero(n)[i] < #[trigger] toward_zero(
                n,
            )[j],
        n > 0 ==> toward_zero(n)[0] == 0,
        n == 0 <==> toward_zero(n).len() == 0,
{
    if n > 0 {
        lemma_halvings_bounds(n, n);
        let h = halvings(n, n);
        assert forall|i: int| 0 <= i < toward_zero(n).len() implies #[trigger] toward_zero(n)[i]
            < n by {
            if i > 0 {
                assert(toward_zero(n)[i] == h[i - 1]);
            }
        }
        assert forall|i: int, j: int|
            0 <= i < j < toward_zero(n).len() implies #[trigger] toward_zero(n)[i]
            < #[trigger] toward_zero(n)[j] by {
            assert(toward_zero(n)[j] == h[j - 1]);
            if i > 0 {
                assert(toward_zero(n)[i] == h[i - 1]);
            } else {
                assert(h[j - 1] >= n - n / 2);
            }
        }
    }
}

/// Every signed shrink candidate is no larger in magnitude than `n`, differs
/// from `n`, fits the type, and the first is `0`.
pub proof fn law_signed_toward_zero_shrinks(n: int, min: int, max: int)
    requires
        min <= n <= max,
        min < 0 < max,
    ensures
        forall|i: int|
            0 <= i < signed_toward_zero(n, max).len() ==> {
                let c = #[trigger] signed_toward_zero(n, max)[i];
                &&& c != n
                &&& (if c < 0 { -c } else { c }) <= (if n < 0 { -n } else { n })
                &&& min <= c <= max
            },
        n != 0 ==> signed_toward_zero(n, max)[0] == 0,
        n == 0 <==> signed_toward_zero(n, max).len() == 0,
{
    if n != 0 {
        let m: nat = if n < 0 { (-n) as nat } else { n as nat };
        lemma_halvings_bounds(m, m);
        let h = halvings(m, m);
        let flip: Seq<int> = if n < 0 && -n <= max { seq![-n] } else { seq![] };
        let mapped = h.map_values(|c: nat| if n < 0 { -(c as int) } else { c as int });
        let s = signed_toward_zero(n, max);
        assert(s == seq![0int] + flip + mapped);
        assert forall|i: int| 0 <= i < s.len() implies {
            let c = #[trigger] s[i];
            &&& c != n
            &&& (if c < 0 { -c } else { c }) <= (if n < 0 { -n } else { n })
            &&& min <= c <= max
        } by {
            if i >= 1 + flip.len() {
                let k = i - 1 - flip.len();
                assert(s[i] == mapped[k]);
                assert(h[k] < m);
            }
        }
    }
}

/// The unsigned shrink candidates of `n`, as `u128`.
pub fn shrink_toward_zero_u128(n: u128) -> (r: Vec<u128>)
    ensures
        r@.len() == toward_zero(n as nat).len(),
        forall|i: int| 0 <= i < r@.len() ==> #[trigger] r@[i] as nat == toward_zero(n as nat)[i],
{
    let mut out: Vec<u128> = Vec::new();
    if n == 0 {
        return out;
    }
    out.push(0);
    let mut delta: u128 = n;
    let ghost target = toward_zero(n as nat);
    while delta / 2 > 0
        invariant
            n > 0,
            delta <= n,
            target == toward_zero(n as nat),
            target.len() == out@.len() + halvings(n as nat, delta as nat).len(),
            forall|i: int| 0 <= i < out@.len() ==> #[trigger] out@[i] as nat == target[i],
            forall|i: int|
                0 <= i < halvings(n as nat, delta as nat).len() ==> #[trigger] halvings(
                    n as nat,
                    delta as nat,
                )[i] == target[out@.len() + i],
        decreases delta,
    {
        let ghost old_delta = delta;
        delta = delta / 2;
        let candidate = n - delta;
        proof {
            let h = halvings(n as nat, old_delta as nat);
            assert(h == seq![(n - delta) as nat] + halvings(n as nat, delta as nat));
            assert(h[0] == candidate as nat);
            assert forall|i: int|
                0 <= i < halvings(n as nat, delta as nat).len() implies #[trigger] halvings(
                n as nat,
                delta as nat,
            )[i] == target[out@.len() + 1 + i] by {
                assert(h[i + 1] == halvings(n as nat, delta as nat)[i]);
            }
        }
        out.push(candidate);
    }
    out
}

/// The signed shrink candidates of `n`, as `i128`.
pub fn shrink_signed_i128(n: i128) -> (r: Vec<i128>)
    ensures
        r@.len() == signed_toward_zero(n as int, i128::MAX as int).len(),
        forall|i: int|
            0 <= i < r@.len() ==> #[trigger] r@[i] as int == signed_toward_zero(
                n as int,
                i128::MAX as int,
            )[i],
{
    shrink_signed_within(n, i128::MAX)
}

/// The signed shrink candidates of `n` for a type whose largest value is
/// `max`, as `i128`.
pub fn shrink_signed_within(n: i128, max: i128) -> (r: Vec<i128>)
    requires
        max >= 0,
    ensures
        r@.len() == signed_toward_zero(n as int, max as int).len(),
        forall|i: int|
            0 <= i < r@.len() ==> #[trigger] r@[i] as int == signed_toward_zero(
                n as int,
                max as int,
            )[i],
{
    let mut out: Vec<i128> = Vec::new();
    if n == 0 {
        return out;
    }
    let ghost target = signed_toward_zero(n as int, max as int);
    let ghost mm: nat = if n < 0 { (-n) as nat } else { n as nat };
    let negative = n < 0;
    out.push(0);
    if n < 0 && n >= -max {
        out.push(-n);
    }
    let m: u128 = if negative {
        if n == i128::MIN {
            0x8000_0000_0000_0000_0000_0000_0000_0000u128
        } else {
            (-n) as u128
        }
    } else {
        n as u128
    };
    assert(m as nat == mm);
    let halves = shrink_toward_zero_u128(m);
    let ghost tz = toward_zero(mm);
    let ghost flip: Seq<int> = if n < 0 && -n <= max { seq![-(n as int)] } else { seq![] };
    let ghost mapped = halvings(mm, mm).map_values(
        |c: nat| if n < 0 { -(c as int) } else { c as int },
    );
    proof {
        lemma_halvings_bounds(mm, mm);
        assert(target == seq![0int] + flip + mapped);
        assert(tz == seq![0nat] + halvings(mm, mm));
    }
    let mut k: usize = 1;
    while k < halves.len()
        invariant
            1 <= k <= halves.len(),
            halves@.len() == tz.len(),
            tz == seq![0nat] + halvings(mm, mm),
            forall|i: int| 0 <= i < halves@.len() ==> #[trigger] halves@[i] as nat == tz[i],
            forall|i: int| 0 <= i < halvings(mm, mm).len() ==> #[trigger] halvings(mm, mm)[i] < mm,
            mm == m as nat,
            mm <= 0x8000_0000_0000_0000_0000_0000_0000_0000,
            negative == (n < 0),
            target == seq![0int] + flip + mapped,
            mapped == halvings(mm, mm).map_values(
                |c: nat| if n < 0 { -(c as int) } else { c as int },
            ),
            out@.len() == 1 + flip.len() + (k - 1),
            forall|i: int| 0 <= i < out@.len() ==> #[trigger] out@[i] as int == target[i],
        decreases halves.len() - k,
    {
        let c: u128 = halves[k];
        proof {
            assert(tz[k as int] == halvings(mm, mm)[k - 1]);
            assert(halves@[k as int] as nat == halvings(mm, mm)[k - 1]);
            assert(mapped[k - 1] == (if n < 0 { -(c as int) } else { c as int }));
        }
        let v: i128 = if negative { -(c as i128) } else { c as i128 };
        out.push(v);
        k = k + 1;
    }
    out
}

} // verus!
