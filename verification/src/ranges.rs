//! [`Arbitrary`] for half-open ranges.
use vstd::prelude::*;
use std::ops::Range;
use vstd::std_specs::cmp::{PartialOrdIs, PartialOrdSpec};
use crate::arbitrary::Arbitrary;
use crate::rng::{Rng, Stream};

verus! {

/// `start..end` is not reversed: `start <= end`, or at least not
/// `end <= start` (the two may be incomparable). Said only of types whose
/// `<=` follows their ordering specification.
pub open spec fn bounds_in_order<T: PartialOrd>(start: T, end: T) -> bool {
    T::obeys_partial_cmp_spec() ==> (start.is_le(&end) || !end.is_le(&start))
}

/// `ks` lists indices below `n`, strictly increasing.
pub open spec fn kept_indices(ks: Seq<int>, n: nat) -> bool {
    &&& forall|q: int| 0 <= q < ks.len() ==> 0 <= #[trigger] ks[q] < n
    &&& forall|a: int, b: int| 0 <= a < b < ks.len() ==> #[trigger] ks[a] < #[trigger] ks[b]
}

/// Among the first `n` candidates `ss` of a range's start, `ks` lists
/// exactly those that are `<= end`.
pub open spec fn start_candidates_kept<T: PartialOrd>(ks: Seq<int>, ss: Seq<T>, end: T, n: int) -> bool {
    T::obeys_partial_cmp_spec() ==> forall|i: int|
        0 <= i < n ==> (ks.contains(i) <==> (#[trigger] ss[i]).is_le(&end))
}

/// Among the first `n` candidates `es` of a range's end, `ke` lists exactly
/// those that are `>= start`.
pub open spec fn end_candidates_kept<T: PartialOrd>(ke: Seq<int>, es: Seq<T>, start: T, n: int) -> bool {
    T::obeys_partial_cmp_spec() ==> forall|i: int|
        0 <= i < n ==> (ke.contains(i) <==> start.is_le(&#[trigger] es[i]))
}

impl<T: Arbitrary + Clone + PartialOrd> Arbitrary for Range<T> {
    /// First the empty range at `start`; then `s..end` for each candidate `s`
    /// of `start` with `s <= end`, in order; then `start..e` for each
    /// candidate `e` of `end` with `start <= e`, in order. The bound that is
    /// kept is a clone.
    open spec fn shrinks_to(&self, r: Seq<Range<T>>) -> bool {
        exists|ss: Seq<T>, es: Seq<T>, ks: Seq<int>, ke: Seq<int>|
            {
                &&& self.start.shrinks_to(ss)
                &&& self.end.shrinks_to(es)
                &&& kept_indices(ks, ss.len())
                &&& kept_indices(ke, es.len())
                &&& r.len() == 1 + ks.len() + ke.len()
                &&& cloned(self.start, r[0].start)
                &&& cloned(self.start, r[0].end)
                &&& forall|q: int|
                    0 <= q < ks.len() ==> {
                        &&& r[1 + q].start == ss[#[trigger] ks[q]]
                        &&& cloned(self.end, r[1 + q].end)
                    }
                &&& forall|q: int|
                    0 <= q < ke.len() ==> {
                        &&& cloned(self.start, r[1 + ks.len() + q].start)
                        &&& r[1 + ks.len() + q].end == es[#[trigger] ke[q]]
                    }
                &&& start_candidates_kept(ks, ss, self.end, ss.len() as int)
                &&& end_candidates_kept(ke, es, self.start, es.len() as int)
            }
    }

    open spec fn arbitrary_from(before: Stream, after: Stream, size: usize, v: Range<T>) -> bool {
        &&& bounds_in_order(v.start, v.end)
    }

    /// Two values generated in turn, the smaller one first.
    fn arbitrary<R: Rng>(rng: &mut R, size: usize) -> (r: Range<T>)
        ensures
            bounds_in_order(r.start, r.end),
    {
        let a = T::arbitrary(rng, size);
        let b = T::arbitrary(rng, size);
        if a <= b {
            a..b
        } else {
            b..a
        }
    }

    fn shrink(&self) -> (r: Vec<Range<T>>) {
        let mut out: Vec<Range<T>> = Vec::new();
        out.push(self.start.clone()..self.start.clone());
        let mut ss = self.start.shrink();
        let ghost gs = ss@;
        assert(gs.len() == ss.len());
        let ghost mut ks: Seq<int> = seq![];
        let mut j: usize = 0;
        while ss.len() > 0
            invariant
                j <= gs.len(),
                gs.len() <= usize::MAX,
                ss@ == gs.skip(j as int),
                out@.len() == 1 + ks.len(),
                cloned(self.start, out@[0].start),
                cloned(self.start, out@[0].end),
                forall|q: int| 0 <= q < ks.len() ==> 0 <= #[trigger] ks[q] < j,
                forall|a: int, b: int| 0 <= a < b < ks.len() ==> #[trigger] ks[a] < #[trigger] ks[b],
                forall|q: int|
                    0 <= q < ks.len() ==> {
                        &&& out@[1 + q].start == gs[#[trigger] ks[q]]
                        &&& cloned(self.end, out@[1 + q].end)
                    },
                start_candidates_kept(ks, gs, self.end, j as int),
            decreases ss@.len(),
        {
            let s = ss.remove(0);
            assert(s == gs[j as int]);
            assert(ss@ == gs.skip(j + 1));
            if s <= self.end {
                let ghost before = out@;
                let ghost oks = ks;
                out.push(s..self.end.clone());
                proof {
                    ks = ks.push(j as int);
                    assert forall|q: int|
                        0 <= q < ks.len() implies {
                            &&& out@[1 + q].start == gs[#[trigger] ks[q]]
                            &&& cloned(self.end, out@[1 + q].end)
                        } by {
                        if q < oks.len() {
                            assert(ks[q] == oks[q]);
                            assert(out@[1 + q] == before[1 + q]);
                        }
                    }
                    assert(ks[oks.len() as int] == j);
                    assert(ks.contains(j as int));
                    assert forall|i: int| 0 <= i < j implies (ks.contains(i) <==> oks.contains(i)) by {
                        if ks.contains(i) {
                            let q = choose|q: int| 0 <= q < ks.len() && ks[q] == i;
                            assert(q < oks.len());
                            assert(oks[q] == i);
                        }
                        if oks.contains(i) {
                            let q = choose|q: int| 0 <= q < oks.len() && oks[q] == i;
                            assert(ks[q] == i);
                        }
                    }
                }
            } else {
                proof {
                    assert(!ks.contains(j as int));
                }
            }
            j = j + 1;
        }
        let ghost ns = ks.len();
        let mut es = self.end.shrink();
        let ghost ge = es@;
        assert(ge.len() == es.len());
        let ghost mut ke: Seq<int> = seq![];
        let mut j: usize = 0;
        while es.len() > 0
            invariant
                j <= ge.len(),
                ge.len() <= usize::MAX,
                es@ == ge.skip(j as int),
                ns == ks.len(),
                out@.len() == 1 + ns + ke.len(),
                cloned(self.start, out@[0].start),
                cloned(self.start, out@[0].end),
                forall|q: int| 0 <= q < ks.len() ==> 0 <= #[trigger] ks[q] < gs.len(),
                forall|q: int|
                    0 <= q < ks.len() ==> {
                        &&& out@[1 + q].start == gs[#[trigger] ks[q]]
                        &&& cloned(self.end, out@[1 + q].end)
                    },
                forall|q: int| 0 <= q < ke.len() ==> 0 <= #[trigger] ke[q] < j,
                forall|a: int, b: int| 0 <= a < b < ke.len() ==> #[trigger] ke[a] < #[trigger] ke[b],
                forall|p: int| 1 + ks.len() <= p < out@.len() ==> cloned(self.start, #[trigger] out@[p].start),
                forall|q: int| 0 <= q < ke.len() ==> out@[1 + ks.len() + q].end == ge[#[trigger] ke[q]],
                end_candidates_kept(ke, ge, self.start, j as int),
            decreases es@.len(),
        {
            let e = es.remove(0);
            assert(e == ge[j as int]);
            assert(es@ == ge.skip(j + 1));
            if self.start <= e {
                let ghost before = out@;
                let ghost oke = ke;
                out.push(self.start.clone()..e);
                proof {
                    ke = ke.push(j as int);
                    assert forall|q: int|
                        0 <= q < ks.len() implies {
                            &&& out@[1 + q].start == gs[#[trigger] ks[q]]
                            &&& cloned(self.end, out@[1 + q].end)
                        } by {
                        assert(out@[1 + q] == before[1 + q]);
                    }
                    assert forall|p: int| 1 + ks.len() <= p < out@.len() implies cloned(self.start, #[trigger] out@[p].start) by {
                        if p < before.len() {
                            assert(out@[p] == before[p]);
                        }
                    }
                    assert forall|q: int| 0 <= q < ke.len() implies out@[1 + ks.len() + q].end == ge[#[trigger] ke[q]] by {
                        if q < oke.len() {
                            assert(ke[q] == oke[q]);
                            assert(out@[1 + ks.len() + q] == before[1 + ks.len() + q]);
                        }
                    }
                    assert(ke[oke.len() as int] == j);
                    assert(ke.contains(j as int));
                    assert forall|i: int| 0 <= i < j implies (ke.contains(i) <==> oke.contains(i)) by {
                        if ke.contains(i) {
                            let q = choose|q: int| 0 <= q < ke.len() && ke[q] == i;
                            assert(q < oke.len());
                            assert(oke[q] == i);
                        }
                        if oke.contains(i) {
                            let q = choose|q: int| 0 <= q < oke.len() && oke[q] == i;
                            assert(ke[q] == i);
                        }
                    }
                }
            } else {
                proof {
                    assert(!ke.contains(j as int));
                }
            }
            j = j + 1;
        }
        proof {
            assert(kept_indices(ks, gs.len()));
            assert(kept_indices(ke, ge.len()));
            assert(self.start.shrinks_to(gs));
            assert(self.end.shrinks_to(ge));
            assert(start_candidates_kept(ks, gs, self.end, gs.len() as int));
            assert(end_candidates_kept(ke, ge, self.start, ge.len() as int));
            assert(out@.len() == 1 + ks.len() + ke.len());
            assert(forall|q: int|
                0 <= q < ks.len() ==> {
                    &&& out@[1 + q].start == gs[#[trigger] ks[q]]
                    &&& cloned(self.end, out@[1 + q].end)
                });
            assert forall|q: int|
                0 <= q < ke.len() implies {
                    &&& cloned(self.start, out@[1 + ks.len() + q].start)
                    &&& out@[1 + ks.len() + q].end == ge[#[trigger] ke[q]]
                } by {
                assert(cloned(self.start, out@[1 + ks.len() + q].start));
            }
        }
        out
    }
}

} // verus!
