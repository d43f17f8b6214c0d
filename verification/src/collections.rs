//! [`Arbitrary`] for std collections and fixed-size arrays.
//!
//! Each collection is generated as a vector of its elements and shrinks the
//! way that vector does: the candidates of the element vector, each turned
//! back into the collection.
use vstd::prelude::*;
use std::collections::{HashMap, HashSet, VecDeque};
use std::hash::Hash;
use vstd::std_specs::hash::obeys_key_model;
use vstd::std_specs::iter::IteratorSpec;
use std::time::Duration;
use crate::arbitrary::{Arbitrary, generated_in_turn, vec_drawn, clones_of, clones_except, len_bound, low_bits_of_pair, seq_shrink_layout, size_bits};
use crate::rng::{Rng, Stream, outputs};
use crate::shrink::toward_zero;

verus! {

/// Moves the elements of `v` into a deque, in order.
fn deque_from_vec<T>(v: Vec<T>) -> (r: VecDeque<T>)
    ensures
        r@ == v@,
{
    let mut v = v;
    let ghost all = v@;
    let mut out: VecDeque<T> = VecDeque::new();
    assert(all.len() == v.len());
    let mut k: usize = 0;
    while v.len() > 0
        invariant
            k <= all.len(),
            all.len() <= usize::MAX,
            v@ == all.skip(k as int),
            out@ == all.take(k as int),
        decreases v@.len(),
    {
        let x = v.remove(0);
        out.push_back(x);
        proof {
            assert(all.take(k + 1) == all.take(k as int).push(x));
            assert(v@ == all.skip(k + 1));
        }
        k = k + 1;
    }
    proof {
        assert(all.take(k as int) == all);
    }
    out
}

/// Copies of the elements of `d`, in order.
fn vec_from_deque<T: Clone>(d: &VecDeque<T>) -> (r: Vec<T>)
    ensures
        clones_of(d@, r@),
{
    let mut out: Vec<T> = Vec::new();
    let mut i: usize = 0;
    while i < d.len()
        invariant
            i <= d@.len(),
            out@.len() == i,
            forall|j: int| 0 <= j < i ==> cloned(#[trigger] d@[j], out@[j]),
        decreases d@.len() - i,
    {
        let x = d[i].clone();
        out.push(x);
        i = i + 1;
    }
    out
}

impl<T: Arbitrary + Clone> Arbitrary for VecDeque<T> {
    /// The candidates of the deque's elements as a vector, as deques.
    open spec fn shrinks_to(&self, r: Seq<VecDeque<T>>) -> bool {
        exists|items: Seq<T>, cs: Seq<Vec<T>>, origin: Seq<int>|
            {
                &&& clones_of(self@, items)
                &&& seq_shrink_layout(items, cs, origin)
                &&& r.len() == cs.len()
                &&& forall|k: int| 0 <= k < r.len() ==> #[trigger] r[k]@ == cs[k]@
            }
    }

    /// The elements as a vector would draw them.
    open spec fn arbitrary_from(before: Stream, after: Stream, size: usize, v: VecDeque<T>) -> bool {
        vec_drawn(before, after, size, v@)
    }

    /// A length drawn below [`len_bound`], then that many elements.
    fn arbitrary<R: Rng>(rng: &mut R, size: usize) -> (r: VecDeque<T>)
        ensures
            r@.len() == old(rng).nth_output(0) as int % len_bound(size) as int,
    {
        let v = <Vec<T> as Arbitrary>::arbitrary(rng, size);
        deque_from_vec(v)
    }

    fn shrink(&self) -> (r: Vec<VecDeque<T>>) {
        let items = vec_from_deque(self);
        let mut cands = items.shrink();
        let ghost g = cands@;
        let ghost origin = choose|origin: Seq<int>| seq_shrink_layout(items@, g, origin);
        assert(g.len() == cands.len());
        let mut out: Vec<VecDeque<T>> = Vec::new();
        let mut k: usize = 0;
        while cands.len() > 0
            invariant
                k <= g.len(),
                g.len() <= usize::MAX,
                cands@ == g.skip(k as int),
                out@.len() == k,
                forall|q: int| 0 <= q < k ==> #[trigger] out@[q]@ == g[q]@,
            decreases cands@.len(),
        {
            let c = cands.remove(0);
            assert(c == g[k as int]);
            assert(cands@ == g.skip(k + 1));
            out.push(deque_from_vec(c));
            k = k + 1;
        }
        proof {
            assert(seq_shrink_layout(items@, g, origin));
        }
        out
    }
}

/// The number of candidates listed for the slots before `i`, where slot `j`
/// has the candidates `cands[j]`.
pub open spec fn slot_total<T>(cands: Seq<Seq<T>>, i: int) -> nat
    decreases i,
{
    if i <= 0 {
        0
    } else {
        slot_total(cands, i - 1) + cands[i - 1].len()
    }
}

proof fn lemma_slot_total_mono<T>(cands: Seq<Seq<T>>, i: int, j: int)
    requires
        0 <= i <= j,
    ensures
        slot_total(cands, i) <= slot_total(cands, j),
    decreases j - i,
{
    if i < j {
        lemma_slot_total_mono(cands, i, j - 1);
    }
}

proof fn lemma_slot_total_push<T>(cands: Seq<Seq<T>>, x: Seq<T>, i: int)
    requires
        0 <= i <= cands.len(),
    ensures
        slot_total(cands.push(x), i) == slot_total(cands, i),
    decreases i,
{
    if i > 0 {
        lemma_slot_total_push(cands, x, i - 1);
        assert(cands.push(x)[i - 1] == cands[i - 1]);
    }
}

/// `a` is `arr` with slot `i` replaced by a copy of `c`, every other slot
/// cloned.
pub open spec fn slot_replaced<T: Clone>(arr: Seq<T>, a: Seq<T>, i: int, c: T) -> bool {
    &&& clones_except(arr, a, i)
    &&& cloned(c, a[i])
}

/// Converts a vector of length `N` into an array.
#[verifier::external_body]
fn array_from_vec<T, const N: usize>(v: Vec<T>) -> (a: [T; N])
    requires
        v@.len() == N,
    ensures
        a@ == v@,
{
    <[T; N]>::try_from(v).ok().expect("the vector has the array's length")
}

impl<T: Arbitrary + Clone, const N: usize> Arbitrary for [T; N] {
    /// The slots generated in turn, first to last.
    open spec fn arbitrary_from(before: Stream, after: Stream, size: usize, v: [T; N]) -> bool {
        exists|states: Seq<Stream>|
            #![trigger generated_in_turn(states, size, v@)]
            generated_in_turn(states, size, v@) && states[0] == before && states.last() == after
    }

    /// Slot by slot, each candidate of the slot's value in place of it, the
    /// other slots cloned: the candidates of slot `i` come after those of the
    /// slots before it, in the order the slot's value lists them.
    open spec fn shrinks_to(&self, r: Seq<[T; N]>) -> bool {
        exists|cands: Seq<Seq<T>>|
            {
                &&& cands.len() == N
                &&& forall|i: int| 0 <= i < N ==> self@[i].shrinks_to(#[trigger] cands[i])
                &&& r.len() == slot_total(cands, N as int)
                &&& forall|i: int, k: int|
                    0 <= i < N && 0 <= k < cands[i].len() ==> slot_replaced(
                        self@,
                        r[slot_total(cands, i) + k]@,
                        i,
                        #[trigger] cands[i][k],
                    )
            }
    }

    /// `N` values generated in turn.
    fn arbitrary<R: Rng>(rng: &mut R, size: usize) -> (r: [T; N]) {
        let mut v: Vec<T> = Vec::new();
        let mut i: usize = 0;
        let ghost mut states: Seq<Stream> = seq![outputs(*rng)];
        while i < N
            invariant
                i <= N,
                v@.len() == i,
                generated_in_turn(states, size, v@),
                states[0] == outputs(*old(rng)),
                states.last() == outputs(*rng),
            decreases N - i,
        {
            let ghost s0 = *rng;
            let x = T::arbitrary(rng, size);
            proof {
                let ns = states.push(outputs(*rng));
                assert forall|j: int| 0 <= j < v@.push(x).len() implies T::arbitrary_from(
                    #[trigger] ns[j],
                    ns[j + 1],
                    size,
                    v@.push(x)[j],
                ) by {
                    if j < v@.len() {
                        assert(ns[j] == states[j] && ns[j + 1] == states[j + 1]);
                        assert(v@.push(x)[j] == v@[j]);
                    } else {
                        assert(ns[j] == outputs(s0));
                    }
                }
                states = ns;
            }
            v.push(x);
            i = i + 1;
        }
        let a = array_from_vec(v);
        assert(generated_in_turn(states, size, a@));
        a
    }

    fn shrink(&self) -> (r: Vec<[T; N]>) {
        let mut out: Vec<[T; N]> = Vec::new();
        let ghost mut cands: Seq<Seq<T>> = seq![];
        let mut i: usize = 0;
        while i < N
            invariant
                i <= N,
                self@.len() == N,
                cands.len() == i,
                forall|j: int| 0 <= j < i ==> self@[j].shrinks_to(#[trigger] cands[j]),
                out@.len() == slot_total(cands, i as int),
                forall|j: int, k: int|
                    0 <= j < i && 0 <= k < cands[j].len() ==> slot_replaced(
                        self@,
                        out@[slot_total(cands, j) + k]@,
                        j,
                        #[trigger] cands[j][k],
                    ),
            decreases N - i,
        {
            let shrinks = self[i].shrink();
            let ghost base = out@.len();
            let mut k: usize = 0;
            while k < shrinks.len()
                invariant
                    i < N,
                    self@.len() == N,
                    cands.len() == i,
                    base == slot_total(cands, i as int),
                    out@.len() == base + k,
                    k <= shrinks@.len(),
                    forall|j: int, q: int|
                        0 <= j < i && 0 <= q < cands[j].len() ==> slot_replaced(
                            self@,
                            out@[slot_total(cands, j) + q]@,
                            j,
                            #[trigger] cands[j][q],
                        ),
                    forall|q: int|
                        0 <= q < k ==> slot_replaced(
                            self@,
                            out@[base + q]@,
                            i as int,
                            #[trigger] shrinks@[q],
                        ),
                decreases shrinks@.len() - k,
            {
                let mut arr = self.clone();
                let s = shrinks[k].clone();
                arr[i] = s;
                let ghost before = out@;
                out.push(arr);
                proof {
                    assert forall|j: int, q: int|
                        0 <= j < i && 0 <= q < cands[j].len() implies slot_replaced(
                            self@,
                            out@[slot_total(cands, j) + q]@,
                            j,
                            #[trigger] cands[j][q],
                        ) by {
                        lemma_slot_total_mono(cands, j + 1, i as int);
                        assert(out@[slot_total(cands, j) + q] == before[slot_total(cands, j) + q]);
                    }
                    assert forall|q: int|
                        0 <= q < k + 1 implies slot_replaced(
                            self@,
                            out@[base + q]@,
                            i as int,
                            #[trigger] shrinks@[q],
                        ) by {
                        if q < k {
                            assert(out@[base + q] == before[base + q]);
                        }
                    }
                }
                k = k + 1;
            }
            proof {
                let nc = cands.push(shrinks@);
                assert forall|j: int| 0 <= j <= i implies slot_total(nc, j) == slot_total(cands, j) by {
                    lemma_slot_total_push(cands, shrinks@, j);
                }
                assert(slot_total(nc, i + 1) == slot_total(nc, i as int) + shrinks@.len());
                assert forall|j: int, q: int|
                    0 <= j < i + 1 && 0 <= q < nc[j].len() implies slot_replaced(
                        self@,
                        out@[slot_total(nc, j) + q]@,
                        j,
                        #[trigger] nc[j][q],
                    ) by {
                    if j < i {
                        assert(nc[j] == cands[j]);
                    } else {
                        assert(nc[j] == shrinks@);
                    }
                }
                assert forall|j: int| 0 <= j < i + 1 implies self@[j].shrinks_to(#[trigger] nc[j]) by {
                    if j < i {
                        assert(nc[j] == cands[j]);
                    }
                }
                cands = nc;
            }
            i = i + 1;
        }
        out
    }
}

/// The shrink candidates of a duration of `secs` seconds and `nanos`
/// nanoseconds, as (seconds, nanoseconds): zero, unless the duration is zero;
/// then each candidate of `secs` with `nanos` kept; then the whole seconds
/// alone, when `nanos` is not zero.
pub open spec fn duration_candidates(secs: u64, nanos: u32) -> Seq<(int, int)> {
    let zero: Seq<(int, int)> = if secs == 0 && nanos == 0 {
        seq![]
    } else {
        seq![(0int, 0int)]
    };
    let by_secs = toward_zero(secs as nat).map_values(|s: nat| (s as int, nanos as int));
    let whole: Seq<(int, int)> = if nanos > 0 {
        seq![(secs as int, 0int)]
    } else {
        seq![]
    };
    zero + by_secs + whole
}

/// The shrink candidates of a duration given by its whole seconds and its
/// nanoseconds below one second, as (seconds, nanoseconds) pairs.
pub fn duration_shrink_parts(secs: u64, nanos: u32) -> (r: Vec<(u64, u32)>)
    ensures
        r@.len() == duration_candidates(secs, nanos).len(),
        forall|k: int|
            0 <= k < r@.len() ==> (#[trigger] r@[k].0 as int, r@[k].1 as int) == duration_candidates(
                secs,
                nanos,
            )[k],
{
    let ghost want = duration_candidates(secs, nanos);
    let mut out: Vec<(u64, u32)> = Vec::new();
    let ghost zero: Seq<(int, int)> = if secs == 0 && nanos == 0 {
        seq![]
    } else {
        seq![(0int, 0int)]
    };
    let ghost by_secs = toward_zero(secs as nat).map_values(|s: nat| (s as int, nanos as int));
    if !(secs == 0 && nanos == 0) {
        out.push((0, 0));
    }
    assert(out@.len() == zero.len());
    let ss = secs.shrink();
    let mut i: usize = 0;
    while i < ss.len()
        invariant
            i <= ss@.len(),
            ss@.len() == toward_zero(secs as nat).len(),
            forall|j: int| 0 <= j < ss@.len() ==> #[trigger] ss@[j] as nat == toward_zero(secs as nat)[j],
            by_secs == toward_zero(secs as nat).map_values(|s: nat| (s as int, nanos as int)),
            out@.len() == zero.len() + i,
            forall|k: int|
                0 <= k < zero.len() ==> (#[trigger] out@[k].0 as int, out@[k].1 as int) == zero[k],
            forall|k: int|
                0 <= k < i ==> (#[trigger] out@[zero.len() + k].0 as int, out@[zero.len() + k].1 as int)
                    == by_secs[k],
        decreases ss@.len() - i,
    {
        let ghost before = out@;
        out.push((ss[i], nanos));
        proof {
            assert(by_secs[i as int] == (ss@[i as int] as int, nanos as int));
            assert forall|k: int|
                0 <= k < i + 1 implies (#[trigger] out@[zero.len() + k].0 as int, out@[zero.len() + k].1 as int)
                    == by_secs[k] by {
                if k < i {
                    assert(out@[zero.len() + k] == before[zero.len() + k]);
                }
            }
        }
        i = i + 1;
    }
    let ghost mid = out@;
    if nanos > 0 {
        out.push((secs, 0));
    }
    proof {
        assert forall|k: int|
            0 <= k < out@.len() implies (#[trigger] out@[k].0 as int, out@[k].1 as int) == want[k] by {
            if k < zero.len() {
                assert(out@[k] == mid[k]);
            } else if k < zero.len() + by_secs.len() {
                assert(out@[k] == mid[k]);
                assert(out@[zero.len() + (k - zero.len())] == out@[k]);
            }
        }
    }
    out
}

/// What `Duration::as_secs` returns for `d`: its whole seconds.
pub uninterp spec fn duration_as_secs(d: Duration) -> u64;

/// What `Duration::subsec_nanos` returns for `d`: its nanoseconds past the
/// whole seconds.
pub uninterp spec fn duration_subsec(d: Duration) -> u32;

/// `Duration::new`: the duration of `secs` seconds and `nanos` nanoseconds.
/// As its documentation says, nanoseconds of a billion or more carry into
/// the seconds (and it panics when that carry overflows), so with `nanos`
/// below one second the duration's whole seconds are `secs` and its
/// nanoseconds are `nanos`.
#[verifier::external_body]
fn duration_new(secs: u64, nanos: u32) -> (r: Duration)
    requires
        nanos < 1_000_000_000,
    ensures
        duration_as_secs(r) == secs,
        duration_subsec(r) == nanos,
{
    Duration::new(secs, nanos)
}

/// `Duration::as_secs`: the whole seconds of `d`.
#[verifier::external_body]
fn duration_secs(d: &Duration) -> (r: u64)
    ensures
        r == duration_as_secs(*d),
{
    d.as_secs()
}

/// `Duration::subsec_nanos`: the nanoseconds of `d` past its whole
/// seconds, which the documentation puts below one second.
#[verifier::external_body]
fn duration_subsec_nanos(d: &Duration) -> (r: u32)
    ensures
        r == duration_subsec(*d),
        r < 1_000_000_000,
{
    d.subsec_nanos()
}

impl Arbitrary for Duration {
    /// The shrink candidates: durations with the seconds and nanoseconds of
    /// [`duration_candidates`], in that order.
    open spec fn shrinks_to(&self, r: Seq<Duration>) -> bool {
        let c = duration_candidates(duration_as_secs(*self), duration_subsec(*self));
        &&& r.len() == c.len()
        &&& forall|k: int|
            0 <= k < r.len() ==> (duration_as_secs(#[trigger] r[k]) as int, duration_subsec(r[k]) as int)
                == c[k]
    }

    /// Whole seconds as a `u64` generated under `size` from the next two
    /// words, then nanoseconds: the third word modulo one second.
    open spec fn arbitrary_from(before: Stream, after: Stream, size: usize, v: Duration) -> bool {
        &&& duration_as_secs(v) as nat == low_bits_of_pair(
            before(0),
            before(1),
            size_bits(64u32 as nat, size),
        )
        &&& duration_subsec(v) as nat == before(2) % 1_000_000_000
        &&& forall|k: nat| #[trigger] after(k) == before(k + 3)
    }

    /// Whole seconds as a `u64` generated under `size`, and nanoseconds drawn
    /// below one second.
    fn arbitrary<R: Rng>(rng: &mut R, size: usize) -> (r: Duration) {
        let ghost s0 = *rng;
        let secs = u64::arbitrary(rng, size);
        let ghost s1 = *rng;
        let nanos = rng.gen_range_u64(0, 1_000_000_000);
        assert(s1.nth_output(0) == s0.nth_output(2));
        assert forall|k: nat| #[trigger] rng.nth_output(k) == s0.nth_output(k + 3) by {
            assert(s1.nth_output(k + 1) == s0.nth_output(k + 1 + 2));
        }
        duration_new(secs, nanos as u32)
    }

    /// The durations of [`duration_shrink_parts`] for the seconds and
    /// nanoseconds of `self`.
    fn shrink(&self) -> (r: Vec<Duration>) {
        let secs = duration_secs(self);
        let nanos = duration_subsec_nanos(self);
        let parts = duration_shrink_parts(secs, nanos);
        let mut out: Vec<Duration> = Vec::new();
        let mut i: usize = 0;
        while i < parts.len()
            invariant
                i <= parts@.len(),
                parts@.len() == duration_candidates(secs, nanos).len(),
                forall|k: int|
                    0 <= k < parts@.len() ==> (#[trigger] parts@[k].0 as int, parts@[k].1 as int)
                        == duration_candidates(secs, nanos)[k],
                nanos < 1_000_000_000,
                secs == duration_as_secs(*self),
                nanos == duration_subsec(*self),
                out@.len() == i,
                forall|k: int|
                    0 <= k < i ==> (duration_as_secs(#[trigger] out@[k]) as int, duration_subsec(out@[k]) as int)
                        == duration_candidates(secs, nanos)[k],
            decreases parts@.len() - i,
        {
            let (s, n) = parts[i];
            proof {
                let c = duration_candidates(secs, nanos);
                assert((parts@[i as int].0 as int, parts@[i as int].1 as int) == c[i as int]);
                let zero: Seq<(int, int)> = if secs == 0 && nanos == 0 {
                    seq![]
                } else {
                    seq![(0int, 0int)]
                };
                let by_secs = toward_zero(secs as nat).map_values(|s: nat| (s as int, nanos as int));
                if i < zero.len() {
                    assert(c[i as int] == zero[i as int]);
                } else if i < zero.len() + by_secs.len() {
                    assert(c[i as int] == by_secs[i - zero.len()]);
                } else {
                    assert(c[i as int] == (secs as int, 0int));
                }
            }
            out.push(duration_new(s, n));
            i = i + 1;
        }
        out
    }
}

/// The number of elements drawn for a collection under `size` from the
/// random word `word`.
pub open spec fn drawn_len(word: u64, size: usize) -> int {
    word as int % len_bound(size) as int
}

/// Moves the elements of `v` into a set.
fn set_from_vec<T: Eq + Hash>(v: Vec<T>) -> (r: HashSet<T>)
    ensures
        obeys_key_model::<T>() ==> r@ == v@.to_set(),
{
    broadcast use vstd::std_specs::hash::group_hash_axioms;

    let mut v = v;
    let ghost all = v@;
    let mut out: HashSet<T> = HashSet::new();
    assert(all.len() == v.len());
    let mut k: usize = 0;
    while v.len() > 0
        invariant
            k <= all.len(),
            all.len() <= usize::MAX,
            v@ == all.skip(k as int),
            obeys_key_model::<T>() ==> out@ == all.take(k as int).to_set(),
        decreases v@.len(),
    {
        let x = v.remove(0);
        proof {
            assert(x == all[k as int]);
            assert(v@ == all.skip(k + 1));
            assert(all.take(k + 1) == all.take(k as int) + seq![x]);
            Seq::<T>::lemma_to_set_insert_commutes(all.take(k as int), x);
        }
        out.insert(x);
        k = k + 1;
    }
    proof {
        assert(all.take(k as int) == all);
    }
    out
}

/// Copies of the elements of `s`, each once, in the order the set lists
/// them.
/// The first `n` items of `it`, in order.
pub(crate) fn take_items<I: Iterator>(iter: I, n: usize) -> (r: Vec<I::Item>)
    ensures
        iter.obeys_prophetic_iter_laws() && IteratorSpec::remaining(&iter).len() == n ==> r@
            == IteratorSpec::remaining(&iter),
{
    let mut it = iter;
    let ghost all = IteratorSpec::remaining(&it);
    let mut out: Vec<I::Item> = Vec::new();
    let mut i: usize = 0;
    while i < n
        invariant
            i <= n,
            it.obeys_prophetic_iter_laws() == iter.obeys_prophetic_iter_laws(),
            all == IteratorSpec::remaining(&iter),
            it.obeys_prophetic_iter_laws() && all.len() == n ==> {
                &&& IteratorSpec::remaining(&it) == all.skip(i as int)
                &&& out@ == all.take(i as int)
            },
        decreases n - i,
    {
        let ghost before = IteratorSpec::remaining(&it);
        let x = it.next();
        match x {
            Some(v) => {
                assert(all.take(i + 1) == all.take(i as int).push(v) || !(it.obeys_prophetic_iter_laws()
                    && all.len() == n));
                assert(IteratorSpec::remaining(&it) =~= all.skip(i + 1) || !(it.obeys_prophetic_iter_laws()
                    && all.len() == n));
                out.push(v);
            },
            None => {},
        }
        i = i + 1;
    }
    assert(all.take(n as int) =~= all || all.len() != n);
    out
}

/// Copies of the elements of `s`, each once, in the order the set lists
/// them.
fn vec_from_set<T: Clone + Eq + Hash>(s: &HashSet<T>) -> (r: Vec<T>)
    ensures
        obeys_key_model::<T>() ==> exists|keys: Seq<T>|
            {
                &&& keys.no_duplicates()
                &&& keys.to_set() == s@
                &&& clones_of(keys, r@)
            },
{
    broadcast use vstd::std_specs::hash::group_hash_axioms;

    let refs = take_items(s.iter(), s.len());
    let ghost keys = refs@.unref();
    let mut out: Vec<T> = Vec::new();
    let mut i: usize = 0;
    while i < refs.len()
        invariant
            i <= refs@.len(),
            keys == refs@.unref(),
            out@.len() == i,
            forall|j: int| 0 <= j < i ==> cloned(#[trigger] keys[j], out@[j]),
        decreases refs@.len() - i,
    {
        out.push(refs[i].clone());
        i = i + 1;
    }
    out
}

impl<T: Arbitrary + Clone + Eq + Hash> Arbitrary for HashSet<T> {
    /// For keys that follow the hashing model: the set's elements listed once
    /// each, cloned, and shrunk as a vector; each candidate vector turned
    /// into a set.
    open spec fn shrinks_to(&self, r: Seq<HashSet<T>>) -> bool {
        obeys_key_model::<T>() ==> exists|keys: Seq<T>, items: Seq<T>, cs: Seq<Vec<T>>, origin: Seq<int>|
            {
                &&& keys.no_duplicates()
                &&& keys.to_set() == self@
                &&& clones_of(keys, items)
                &&& seq_shrink_layout(items, cs, origin)
                &&& r.len() == cs.len()
                &&& forall|k: int| 0 <= k < r.len() ==> #[trigger] r[k]@ == cs[k]@.to_set()
            }
    }

    /// For keys that follow the hashing model: the set of the elements a
    /// vector would draw, so at most as many as the drawn length.
    open spec fn arbitrary_from(before: Stream, after: Stream, size: usize, v: HashSet<T>) -> bool {
        &&& obeys_key_model::<T>() ==> v@.len() <= drawn_len(before(0), size)
        &&& exists|vs: Seq<T>| #[trigger] vec_drawn(before, after, size, vs) && (obeys_key_model::<T>() ==> v@ == vs.to_set())
    }

    /// A vector generated under `size`, collected into a set: at most as
    /// many elements as the vector's length.
    fn arbitrary<R: Rng>(rng: &mut R, size: usize) -> (r: HashSet<T>)
        ensures
            obeys_key_model::<T>() ==> r@.len() <= drawn_len(old(rng).nth_output(0), size),
    {
        let v = <Vec<T> as Arbitrary>::arbitrary(rng, size);
        proof {
            v@.lemma_cardinality_of_set();
        }
        set_from_vec(v)
    }

    fn shrink(&self) -> (r: Vec<HashSet<T>>) {
        let items = vec_from_set(self);
        let mut cands = items.shrink();
        let ghost g = cands@;
        let ghost origin = choose|origin: Seq<int>| seq_shrink_layout(items@, g, origin);
        assert(g.len() == cands.len());
        let mut out: Vec<HashSet<T>> = Vec::new();
        let mut k: usize = 0;
        while cands.len() > 0
            invariant
                k <= g.len(),
                g.len() <= usize::MAX,
                cands@ == g.skip(k as int),
                out@.len() == k,
                obeys_key_model::<T>() ==> forall|q: int| 0 <= q < k ==> #[trigger] out@[q]@ == g[q]@.to_set(),
            decreases cands@.len(),
        {
            let c = cands.remove(0);
            assert(c == g[k as int]);
            assert(cands@ == g.skip(k + 1));
            let ghost before = out@;
            out.push(set_from_vec(c));
            proof {
                if obeys_key_model::<T>() {
                    assert forall|q: int| 0 <= q < k + 1 implies #[trigger] out@[q]@ == g[q]@.to_set() by {
                        if q < k {
                            assert(out@[q] == before[q]);
                        }
                    }
                }
            }
            k = k + 1;
        }
        proof {
            assert(seq_shrink_layout(items@, g, origin));
        }
        out
    }
}

/// The map that inserting the pairs of `s` in order builds: a later pair
/// wins over an earlier one with the same key.
pub open spec fn map_of_pairs<K, V>(s: Seq<(K, V)>) -> Map<K, V>
    decreases s.len(),
{
    if s.len() == 0 {
        Map::empty()
    } else {
        map_of_pairs(s.drop_last()).insert(s.last().0, s.last().1)
    }
}

/// A map built from pairs has at most one key per pair.
pub proof fn lemma_map_of_pairs_len<K, V>(s: Seq<(K, V)>)
    ensures
        map_of_pairs(s).dom().finite(),
        map_of_pairs(s).dom().len() <= s.len(),
    decreases s.len(),
{
    if s.len() > 0 {
        lemma_map_of_pairs_len(s.drop_last());
    }
}

/// Moves the pairs of `v` into a map, in order.
fn hash_map_from_pairs<K: Eq + Hash, V>(v: Vec<(K, V)>) -> (r: HashMap<K, V>)
    ensures
        obeys_key_model::<K>() ==> r@ == map_of_pairs(v@),
{
    broadcast use vstd::std_specs::hash::group_hash_axioms;

    let mut v = v;
    let ghost all = v@;
    let mut out: HashMap<K, V> = HashMap::new();
    assert(all.len() == v.len());
    let mut k: usize = 0;
    while v.len() > 0
        invariant
            k <= all.len(),
            all.len() <= usize::MAX,
            v@ == all.skip(k as int),
            obeys_key_model::<K>() ==> out@ == map_of_pairs(all.take(k as int)),
        decreases v@.len(),
    {
        let (a, b) = v.remove(0);
        proof {
            assert((a, b) == all[k as int]);
            assert(v@ == all.skip(k + 1));
            assert(all.take(k + 1).drop_last() == all.take(k as int));
        }
        out.insert(a, b);
        k = k + 1;
    }
    proof {
        assert(all.take(k as int) == all);
    }
    out
}

/// `items` is `entries` with each key and value cloned.
pub open spec fn pair_clones<K: Clone, V: Clone>(entries: Seq<(K, V)>, items: Seq<(K, V)>) -> bool {
    &&& entries.len() == items.len()
    &&& forall|i: int|
        0 <= i < entries.len() ==> cloned(#[trigger] entries[i].0, items[i].0) && cloned(
            entries[i].1,
            items[i].1,
        )
}

/// `entries` lists each key of `m` once, with its value.
pub open spec fn lists_entries<K, V>(m: Map<K, V>, entries: Seq<(K, V)>) -> bool {
    &&& entries.len() == m.dom().len()
    &&& entries.to_set() == m.kv_pairs()
}

/// Copies of the entries of `m`, each once, in the order the map lists them.
fn pairs_from_hash_map<K: Clone + Eq + Hash, V: Clone>(m: &HashMap<K, V>) -> (r: Vec<(K, V)>)
    ensures
        obeys_key_model::<K>() ==> exists|entries: Seq<(K, V)>|
            lists_entries(m@, entries) && pair_clones(entries, r@),
{
    broadcast use vstd::std_specs::hash::group_hash_axioms;

    let refs = take_items(m.iter(), m.len());
    let ghost entries = refs@.unref();
    let mut out: Vec<(K, V)> = Vec::new();
    let mut i: usize = 0;
    while i < refs.len()
        invariant
            i <= refs@.len(),
            entries == refs@.unref(),
            out@.len() == i,
            forall|j: int|
                0 <= j < i ==> cloned(#[trigger] entries[j].0, out@[j].0) && cloned(entries[j].1, out@[j].1),
        decreases refs@.len() - i,
    {
        let (a, b) = refs[i];
        out.push((a.clone(), b.clone()));
        i = i + 1;
    }
    proof {
        if obeys_key_model::<K>() {
            assert(lists_entries(m@, entries));
        }
    }
    out
}

impl<K: Arbitrary + Clone + Eq + Hash, V: Arbitrary + Clone> Arbitrary for HashMap<K, V> {
    /// For keys that follow the hashing model: the map's entries listed once
    /// each, cloned, and shrunk as a vector of pairs; each candidate vector
    /// turned into a map.
    open spec fn shrinks_to(&self, r: Seq<HashMap<K, V>>) -> bool {
        obeys_key_model::<K>() ==> exists|
            entries: Seq<(K, V)>,
            items: Seq<(K, V)>,
            cs: Seq<Vec<(K, V)>>,
            origin: Seq<int>,
        |
            {
                &&& lists_entries(self@, entries)
                &&& pair_clones(entries, items)
                &&& seq_shrink_layout(items, cs, origin)
                &&& r.len() == cs.len()
                &&& forall|k: int| 0 <= k < r.len() ==> #[trigger] r[k]@ == map_of_pairs(cs[k]@)
            }
    }

    /// For keys that follow the hashing model: the map of the pairs a
    /// vector would draw, a later key replacing an earlier one.
    open spec fn arbitrary_from(before: Stream, after: Stream, size: usize, v: HashMap<K, V>) -> bool {
        &&& obeys_key_model::<K>() ==> v@.dom().len() <= drawn_len(before(0), size)
        &&& exists|vs: Seq<(K, V)>| #[trigger] vec_drawn(before, after, size, vs) && (obeys_key_model::<K>() ==> v@ == map_of_pairs(vs))
    }

    /// A vector of pairs generated under `size`, collected into a map: at
    /// most as many keys as the vector's length.
    fn arbitrary<R: Rng>(rng: &mut R, size: usize) -> (r: HashMap<K, V>)
        ensures
            obeys_key_model::<K>() ==> r@.dom().len() <= drawn_len(old(rng).nth_output(0), size),
    {
        let v = <Vec<(K, V)> as Arbitrary>::arbitrary(rng, size);
        proof {
            lemma_map_of_pairs_len(v@);
        }
        hash_map_from_pairs(v)
    }

    fn shrink(&self) -> (r: Vec<HashMap<K, V>>) {
        let items = pairs_from_hash_map(self);
        let mut cands = items.shrink();
        let ghost g = cands@;
        let ghost origin = choose|origin: Seq<int>| seq_shrink_layout(items@, g, origin);
        assert(g.len() == cands.len());
        let mut out: Vec<HashMap<K, V>> = Vec::new();
        let mut k: usize = 0;
        while cands.len() > 0
            invariant
                k <= g.len(),
                g.len() <= usize::MAX,
                cands@ == g.skip(k as int),
                out@.len() == k,
                obeys_key_model::<K>() ==> forall|q: int| 0 <= q < k ==> #[trigger] out@[q]@ == map_of_pairs(g[q]@),
            decreases cands@.len(),
        {
            let c = cands.remove(0);
            assert(c == g[k as int]);
            assert(cands@ == g.skip(k + 1));
            let ghost before = out@;
            out.push(hash_map_from_pairs(c));
            proof {
                if obeys_key_model::<K>() {
                    assert forall|q: int| 0 <= q < k + 1 implies #[trigger] out@[q]@ == map_of_pairs(g[q]@) by {
                        if q < k {
                            assert(out@[q] == before[q]);
                        }
                    }
                }
            }
            k = k + 1;
        }
        proof {
            assert(seq_shrink_layout(items@, g, origin));
        }
        out
    }
}

} // verus!
