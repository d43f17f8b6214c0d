//! [`Arbitrary`] for the ordered collections, `BTreeSet` and `BTreeMap`.
use vstd::prelude::*;
use std::collections::{BTreeMap, BTreeSet};
use vstd::laws_cmp::obeys_cmp;
use crate::arbitrary::{Arbitrary, vec_drawn, clones_of, seq_shrink_layout};
use crate::collections::{take_items, map_of_pairs, lemma_map_of_pairs_len, pair_clones, lists_entries, drawn_len};
use crate::rng::{Rng, Stream};

verus! {

/// Moves the elements of `v` into an ordered set.
fn btree_set_from_vec<T: Ord>(v: Vec<T>) -> (r: BTreeSet<T>)
    ensures
        obeys_cmp::<T>() ==> r@ == v@.to_set(),
{
    let mut v = v;
    let ghost all = v@;
    let mut out: BTreeSet<T> = BTreeSet::new();
    let ghost mut done: int = 0;
    while v.len() > 0
        invariant
            0 <= done <= all.len(),
            v@ == all.skip(done),
            obeys_cmp::<T>() ==> out@ == all.take(done).to_set(),
        decreases v@.len(),
    {
        let x = v.remove(0);
        proof {
            assert(x == all[done]);
            assert(v@ == all.skip(done + 1));
            assert(all.take(done + 1) == all.take(done) + seq![x]);
            Seq::<T>::lemma_to_set_insert_commutes(all.take(done), x);
        }
        out.insert(x);
        proof {
            done = done + 1;
        }
    }
    proof {
        assert(all.take(done) == all);
    }
    out
}

/// Copies of the elements of `s`, each once, in the order the set lists
/// them.
fn vec_from_btree_set<T: Clone + Ord>(s: &BTreeSet<T>) -> (r: Vec<T>)
    ensures
        obeys_cmp::<T>() ==> exists|keys: Seq<T>|
            {
                &&& keys.no_duplicates()
                &&& keys.to_set() == s@
                &&& clones_of(keys, r@)
            },
{
    broadcast use vstd::std_specs::btree::group_btree_axioms;

    let refs = take_items(s.iter(), s.len());
    let ghost keys = refs@.unref();
    let mut out: Vec<T> = Vec::new();
    let mut i: usize = 0;
    while i < refs.len()
        invariant
            i <= refs@.len(),
            keys == refs@.unref(),
            out@.len() == i,
            forall|j: int| 0 <= j < i ==> cloned(#[trigger] keys[j], out@[j]),
        decreases refs@.len() - i,
    {
        out.push(refs[i].clone());
        i = i + 1;
    }
    out
}

impl<T: Arbitrary + Clone + Ord> Arbitrary for BTreeSet<T> {
    /// For types that follow their ordering specification: the set's
    /// elements listed once each, cloned, and shrunk as a vector; each
    /// candidate vector turned into a set.
    open spec fn shrinks_to(&self, r: Seq<BTreeSet<T>>) -> bool {
        obeys_cmp::<T>() ==> exists|keys: Seq<T>, items: Seq<T>, cs: Seq<Vec<T>>, origin: Seq<int>|
            {
                &&& keys.no_duplicates()
                &&& keys.to_set() == self@
                &&& clones_of(keys, items)
                &&& seq_shrink_layout(items, cs, origin)
                &&& r.len() == cs.len()
                &&& forall|k: int| 0 <= k < r.len() ==> #[trigger] r[k]@ == cs[k]@.to_set()
            }
    }

    /// For ordered elements: the set of the elements a vector would draw.
    open spec fn arbitrary_from(before: Stream, after: Stream, size: usize, v: BTreeSet<T>) -> bool {
        &&& obeys_cmp::<T>() ==> v@.len() <= drawn_len(before(0), size)
        &&& exists|vs: Seq<T>| #[trigger] vec_drawn(before, after, size, vs) && (obeys_cmp::<T>() ==> v@ == vs.to_set())
    }

    /// A vector generated under `size`, collected into a set: at most as
    /// many elements as the vector's length.
    fn arbitrary<R: Rng>(rng: &mut R, size: usize) -> (r: BTreeSet<T>)
        ensures
            obeys_cmp::<T>() ==> r@.len() <= drawn_len(old(rng).nth_output(0), size),
    {
        let v = Vec::<T>::arbitrary(rng, size);
        proof {
            v@.lemma_cardinality_of_set();
        }
        btree_set_from_vec(v)
    }

    fn shrink(&self) -> (r: Vec<BTreeSet<T>>) {
        let items = vec_from_btree_set(self);
        let mut cands = items.shrink();
        let ghost g = cands@;
        let ghost origin = choose|origin: Seq<int>| seq_shrink_layout(items@, g, origin);
        assert(g.len() == cands.len());
        let mut out: Vec<BTreeSet<T>> = Vec::new();
        let ghost mut done: int = 0;
        while cands.len() > 0
            invariant
                0 <= done <= g.len(),
                cands@ == g.skip(done),
                out@.len() == done,
                obeys_cmp::<T>() ==> forall|q: int| 0 <= q < done ==> #[trigger] out@[q]@ == g[q]@.to_set(),
            decreases cands@.len(),
        {
            let c = cands.remove(0);
            assert(c == g[done]);
            assert(cands@ == g.skip(done + 1));
            let ghost before = out@;
            out.push(btree_set_from_vec(c));
            proof {
                if obeys_cmp::<T>() {
                    assert forall|q: int| 0 <= q < done + 1 implies #[trigger] out@[q]@ == g[q]@.to_set() by {
                        if q < done {
                            assert(out@[q] == before[q]);
                        }
                    }
                }
                done = done + 1;
            }
        }
        proof {
            assert(seq_shrink_layout(items@, g, origin));
        }
        out
    }
}

/// Moves the pairs of `v` into an ordered map, in order.
fn btree_map_from_pairs<K: Ord, V>(v: Vec<(K, V)>) -> (r: BTreeMap<K, V>)
    ensures
        obeys_cmp::<K>() ==> r@ == map_of_pairs(v@),
{
    let mut v = v;
    let ghost all = v@;
    let mut out: BTreeMap<K, V> = BTreeMap::new();
    let ghost mut done: int = 0;
    while v.len() > 0
        invariant
            0 <= done <= all.len(),
            v@ == all.skip(done),
            obeys_cmp::<K>() ==> out@ == map_of_pairs(all.take(done)),
        decreases v@.len(),
    {
        let (a, b) = v.remove(0);
        proof {
            assert((a, b) == all[done]);
            assert(v@ == all.skip(done + 1));
            assert(all.take(done + 1).drop_last() == all.take(done));
        }
        out.insert(a, b);
        proof {
            done = done + 1;
        }
    }
    proof {
        assert(all.take(done) == all);
    }
    out
}

/// Copies of the entries of `m`, each once, in the order the map lists them.
fn pairs_from_btree_map<K: Clone + Ord, V: Clone>(m: &BTreeMap<K, V>) -> (r: Vec<(K, V)>)
    ensures
        obeys_cmp::<K>() ==> exists|entries: Seq<(K, V)>|
            lists_entries(m@, entries) && pair_clones(entries, r@),
{
    broadcast use vstd::std_specs::btree::group_btree_axioms;

    let refs = take_items(m.iter(), m.len());
    let ghost entries = refs@.unref();
    let mut out: Vec<(K, V)> = Vec::new();
    let mut i: usize = 0;
    while i < refs.len()
        invariant
            i <= refs@.len(),
            entries == refs@.unref(),
            out@.len() == i,
            forall|j: int|
                0 <= j < i ==> cloned(#[trigger] entries[j].0, out@[j].0) && cloned(entries[j].1, out@[j].1),
        decreases refs@.len() - i,
    {
        let (a, b) = refs[i];
        out.push((a.clone(), b.clone()));
        i = i + 1;
    }
    proof {
        if obeys_cmp::<K>() {
            assert(lists_entries(m@, entries));
        }
    }
    out
}

impl<K: Arbitrary + Clone + Ord, V: Arbitrary + Clone> Arbitrary for BTreeMap<K, V> {
    /// For keys that follow their ordering specification: the map's entries
    /// listed once each, cloned, and shrunk as a vector of pairs; each
    /// candidate vector turned into a map.
    open spec fn shrinks_to(&self, r: Seq<BTreeMap<K, V>>) -> bool {
        obeys_cmp::<K>() ==> exists|
            entries: Seq<(K, V)>,
            items: Seq<(K, V)>,
            cs: Seq<Vec<(K, V)>>,
            origin: Seq<int>,
        |
            {
                &&& lists_entries(self@, entries)
                &&& pair_clones(entries, items)
                &&& seq_shrink_layout(items, cs, origin)
                &&& r.len() == cs.len()
                &&& forall|k: int| 0 <= k < r.len() ==> #[trigger] r[k]@ == map_of_pairs(cs[k]@)
            }
    }

    /// For ordered keys: the map of the pairs a vector would draw, a later
    /// key replacing an earlier one.
    open spec fn arbitrary_from(before: Stream, after: Stream, size: usize, v: BTreeMap<K, V>) -> bool {
        &&& obeys_cmp::<K>() ==> v@.dom().len() <= drawn_len(before(0), size)
        &&& exists|vs: Seq<(K, V)>| #[trigger] vec_drawn(before, after, size, vs) && (obeys_cmp::<K>() ==> v@ == map_of_pairs(vs))
    }

    /// A vector of pairs generated under `size`, collected into a map: at
    /// most as many keys as the vector's length.
    fn arbitrary<R: Rng>(rng: &mut R, size: usize) -> (r: BTreeMap<K, V>)
        ensures
            obeys_cmp::<K>() ==> r@.dom().len() <= drawn_len(old(rng).nth_output(0), size),
    {
        let v = Vec::<(K, V)>::arbitrary(rng, size);
        proof {
            lemma_map_of_pairs_len(v@);
        }
        btree_map_from_pairs(v)
    }

    fn shrink(&self) -> (r: Vec<BTreeMap<K, V>>) {
        let items = pairs_from_btree_map(self);
        let mut cands = items.shrink();
        let ghost g = cands@;
        let ghost origin = choose|origin: Seq<int>| seq_shrink_layout(items@, g, origin);
        assert(g.len() == cands.len());
        let mut out: Vec<BTreeMap<K, V>> = Vec::new();
        let ghost mut done: int = 0;
        while cands.len() > 0
            invariant
                0 <= done <= g.len(),
                cands@ == g.skip(done),
                out@.len() == done,
                obeys_cmp::<K>() ==> forall|q: int| 0 <= q < done ==> #[trigger] out@[q]@ == map_of_pairs(g[q]@),
            decreases cands@.len(),
        {
            let c = cands.remove(0);
            assert(c == g[done]);
            assert(cands@ == g.skip(done + 1));
            let ghost before = out@;
            out.push(btree_map_from_pairs(c));
            proof {
                if obeys_cmp::<K>() {
                    assert forall|q: int| 0 <= q < done + 1 implies #[trigger] out@[q]@ == map_of_pairs(g[q]@) by {
                        if q < done {
                            assert(out@[q] == before[q]);
                        }
                    }
                }
                done = done + 1;
            }
        }
        proof {
            assert(seq_shrink_layout(items@, g, origin));
        }
        out
    }
}

} // verus!
