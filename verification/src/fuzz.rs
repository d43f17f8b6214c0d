//! An in-process mutation fuzzer.
//!
//! The fuzzer drives a target with a stream of mutated byte buffers, treats
//! an error (a panic, once the caller has caught it) as a crash, and
//! minimizes a crashing input by deleting bytes and zeroing bytes while the
//! target keeps crashing. Crashes can be de-duplicated by message, the run
//! can continue after a crash, and a dictionary of byte strings can be
//! spliced into inputs.
use vstd::prelude::*;
use std::collections::BTreeSet;
use crate::rng::{Rng, Stream, XorShift64, outputs, seed_stream, seeded_state, lemma_seed_stream};
use crate::arbitrary::Arbitrary;

verus! {

/// The parameters of a fuzzing run.
#[derive(Debug, Clone)]
pub struct FuzzConfig {
    /// How many inputs to run at most.
    pub iterations: usize,
    /// The largest input the mutator builds.
    pub max_input_len: usize,
    /// The seed of the generator.
    pub seed: u64,
    /// Inputs to start mutating from.
    pub initial_corpus: Vec<Vec<u8>>,
    /// How many target runs minimizing one crash may take.
    pub minimize_steps: usize,
    /// Whether the panic hook is silenced while fuzzing.
    pub silence_panic_hook: bool,
    /// Whether to keep looking for other crashes after the first.
    pub continue_after_crash: bool,
    /// Whether a crash whose message was already seen is dropped.
    pub dedup_by_message: bool,
    /// Byte strings that mutations splice into inputs.
    pub dictionary: Vec<Vec<u8>>,
    /// Where corpus entries are loaded from and saved to, if anywhere.
    pub corpus_dir: Option<String>,
    /// Where crashing inputs are saved, if anywhere.
    pub crash_dir: Option<String>,
}

/// A crashing input the fuzzer found.
#[derive(Debug, Clone)]
pub struct Failure {
    /// The minimized crashing input.
    pub input: Vec<u8>,
    /// The crash message.
    pub message: String,
    /// The 1-based index of the run that crashed.
    pub iteration: usize,
}

/// The result of a fuzzing run.
#[derive(Debug, Clone)]
pub struct FuzzReport {
    /// How many runs were done.
    pub iterations: usize,
    /// The seed of the run.
    pub seed: u64,
    /// The distinct crashes found, in the order found.
    pub failures: Vec<Failure>,
}

impl FuzzReport {
    /// The first crash found, if any.
    pub fn failure(&self) -> (r: Option<&Failure>)
        ensures
            self.failures@.len() == 0 ==> r is None,
            self.failures@.len() > 0 ==> r == Some(&self.failures@[0]),
    {
        if self.failures.len() == 0 {
            None
        } else {
            Some(&self.failures[0])
        }
    }
}

/// The 64-bit FNV-1a hash of `bytes`.
pub open spec fn fnv(bytes: Seq<u8>) -> u64
    decreases bytes.len(),
{
    if bytes.len() == 0 {
        0xcbf2_9ce4_8422_2325
    } else {
        let h = fnv(bytes.drop_last()) ^ (bytes.last() as u64);
        ((h as nat * 0x100_0000_01b3nat) % 0x1_0000_0000_0000_0000nat) as u64
    }
}

/// The 64-bit FNV-1a hash of `bytes`.
pub fn fnv_hash(bytes: &[u8]) -> (r: u64)
    ensures
        r == fnv(bytes@),
{
    let mut h: u64 = 0xcbf2_9ce4_8422_2325;
    let mut i: usize = 0;
    while i < bytes.len()
        invariant
            i <= bytes@.len(),
            h == fnv(bytes@.take(i as int)),
        decreases bytes@.len() - i,
    {
        proof {
            assert(bytes@.take(i + 1).drop_last() == bytes@.take(i as int));
        }
        h = h ^ (bytes[i] as u64);
        h = h.wrapping_mul(0x100_0000_01b3);
        i = i + 1;
    }
    assert(bytes@.take(bytes@.len() as int) == bytes@);
    h
}

/// A copy of `bytes`.
pub fn copy_bytes(bytes: &[u8]) -> (r: Vec<u8>)
    ensures
        r@ == bytes@,
{
    let mut out: Vec<u8> = Vec::new();
    let mut i: usize = 0;
    while i < bytes.len()
        invariant
            i <= bytes@.len(),
            out@ == bytes@.take(i as int),
        decreases bytes@.len() - i,
    {
        out.push(bytes[i]);
        i = i + 1;
        assert(out@ == bytes@.take(i as int));
    }
    assert(bytes@.take(bytes@.len() as int) == bytes@);
    out
}

/// `a[..cut] + b[from..]`, cut to at most `max` bytes.
fn splice(a: &Vec<u8>, cut: usize, b: &[u8], from: usize, max: usize) -> (r: Vec<u8>)
    requires
        cut <= a@.len(),
        from <= b@.len(),
    ensures
        r@ == (a@.take(cut as int) + b@.skip(from as int)).take(
            if a@.take(cut as int).len() + b@.skip(from as int).len() <= max { (a@.take(cut as int).len() + b@.skip(from as int).len()) as int } else { max as int },
        ),
{
    let mut out: Vec<u8> = Vec::new();
    let mut i: usize = 0;
    while i < cut
        invariant
            i <= cut,
            cut <= a@.len(),
            out@ == a@.take(i as int),
        decreases cut - i,
    {
        out.push(a[i]);
        i = i + 1;
        assert(out@ == a@.take(i as int));
    }
    let mut j: usize = from;
    while j < b.len()
        invariant
            from <= j <= b@.len(),
            cut <= a@.len(),
            out@ == a@.take(cut as int) + b@.subrange(from as int, j as int),
        decreases b@.len() - j,
    {
        out.push(b[j]);
        j = j + 1;
        assert(out@ == a@.take(cut as int) + b@.subrange(from as int, j as int));
    }
    assert(b@.subrange(from as int, b@.len() as int) == b@.skip(from as int));
    out.truncate(max);
    out
}

/// The bytes that mutation writes when it picks an "interesting" value.
pub open spec fn interesting_bytes() -> Seq<u8> {
    seq![0x00u8, 0x01u8, 0x10u8, 0x7fu8, 0x80u8, 0xfeu8, 0xffu8]
}

/// The `k`-th interesting byte.
fn interesting(k: usize) -> (r: u8)
    requires
        k < 7,
    ensures
        r == interesting_bytes()[k as int],
{
    if k == 0 {
        0x00
    } else if k == 1 {
        0x01
    } else if k == 2 {
        0x10
    } else if k == 3 {
        0x7f
    } else if k == 4 {
        0x80
    } else if k == 5 {
        0xfe
    } else {
        0xff
    }
}

/// The `k`-th word after the first `o` of the stream of `g`.
pub open spec fn word(g: XorShift64, o: nat, k: nat) -> u64 {
    g.nth_output(o + k)
}

/// The value a draw in `[lo, hi)` takes from word `k` after `o`.
pub open spec fn pick(g: XorShift64, o: nat, k: nat, lo: nat, hi: nat) -> nat {
    lo + (word(g, o, k) as nat) % ((hi - lo) as nat)
}

/// `s` cut to at most `max` elements.
pub open spec fn capped(s: Seq<u8>, max: nat) -> Seq<u8> {
    s.take(
        if s.len() <= max {
            s.len() as int
        } else {
            max as int
        },
    )
}

/// `input` with the bytes from `pos` replaced by the start of `entry`, as
/// many as fit.
pub open spec fn overwritten(input: Seq<u8>, pos: nat, entry: Seq<u8>) -> Seq<u8> {
    let room = input.len() - pos;
    let n = if entry.len() < room {
        entry.len() as int
    } else {
        room
    };
    Seq::new(input.len(), |i: int| if pos <= i < pos + n { entry[i - pos] } else { input[i] })
}

/// The mutation of kind `kind` of `input`, drawing its words from the stream
/// of `g` after the first `o`: the mutated input, or `None` when the kind
/// does not apply; and how many words it draws.
///
/// 0 flips a bit of a byte; 1 overwrites a byte with a word's low byte; 2
/// overwrites a byte with an interesting byte; 3 inserts a byte (below
/// `max` bytes); 4 removes a byte; 5 splices the input's head with the tail
/// of a non-empty corpus entry; 6 swaps two bytes (of two or more); 7
/// inserts a dictionary entry (below `max` bytes); 8 overwrites bytes with
/// a non-empty dictionary entry.
#[verifier::opaque]
pub open spec fn mutation(
    kind: u64,
    input: Seq<u8>,
    corpus: Seq<Vec<u8>>,
    dict: Seq<Vec<u8>>,
    max: nat,
    g: XorShift64,
    o: nat,
) -> (Option<Seq<u8>>, nat) {
    let len = input.len();
    if kind == 0 && len > 0 {
        let i = pick(g, o, 0, 0, len) as int;
        let bit = (word(g, o, 1) % 8) as u8;
        (Some(input.update(i, input[i] ^ (1u8 << bit))), 2)
    } else if kind == 1 && len > 0 {
        (Some(input.update(pick(g, o, 0, 0, len) as int, word(g, o, 1) as u8)), 2)
    } else if kind == 2 && len > 0 {
        (Some(input.update(pick(g, o, 0, 0, len) as int, interesting_bytes()[pick(g, o, 1, 0, 7) as int])), 2)
    } else if kind == 3 && len < max {
        (Some(input.insert(pick(g, o, 0, 0, len + 1) as int, word(g, o, 1) as u8)), 2)
    } else if kind == 4 && len > 0 {
        (Some(input.remove(pick(g, o, 0, 0, len) as int)), 1)
    } else if kind == 5 && corpus.len() > 0 && len > 0 && len < usize::MAX {
        let other = corpus[pick(g, o, 0, 0, corpus.len()) as int]@;
        if other.len() > 0 {
            let cut_self = pick(g, o, 1, 0, len + 1) as int;
            let cut_other = pick(g, o, 2, 0, other.len()) as int;
            (Some(capped(input.take(cut_self) + other.skip(cut_other), max)), 3)
        } else {
            (None, 1)
        }
    } else if kind == 6 && len > 1 {
        let i = pick(g, o, 0, 0, len) as int;
        let j = pick(g, o, 1, 0, len) as int;
        (Some(input.update(i, input[j]).update(j, input[i])), 2)
    } else if kind == 7 && dict.len() > 0 && len < max {
        let entry = dict[pick(g, o, 0, 0, dict.len()) as int]@;
        let pos = pick(g, o, 1, 0, len + 1) as int;
        let head = capped(input.take(pos) + entry, usize::MAX as nat);
        (Some(capped(head + input.skip(pos), max)), 2)
    } else if kind == 8 && dict.len() > 0 && len > 0 {
        let entry = dict[pick(g, o, 0, 0, dict.len()) as int]@;
        if entry.len() > 0 {
            (Some(overwritten(input, pick(g, o, 1, 0, len), entry)), 2)
        } else {
            (None, 1)
        }
    } else {
        (None, 0)
    }
}

/// What [`mutate`] makes of `input` with words from the stream of `g` after
/// the first `o`, when `attempts` kinds may still be drawn: the result and
/// how many words it draws.
#[verifier::opaque]
pub open spec fn mutated(
    input: Seq<u8>,
    corpus: Seq<Vec<u8>>,
    dict: Seq<Vec<u8>>,
    max: nat,
    g: XorShift64,
    o: nat,
    attempts: nat,
) -> (Seq<u8>, nat)
    decreases attempts,
{
    if attempts == 0 {
        if input.len() < max {
            (input.push(word(g, o, 0) as u8), 1)
        } else {
            (input, 0)
        }
    } else {
        let kinds: u64 = if dict.len() > 0 {
            9
        } else {
            7
        };
        let choice = word(g, o, 0) % kinds;
        let (res, used) = mutation(choice, input, corpus, dict, max, g, o + 1);
        match res {
            Some(out) => (out, 1 + used),
            None => {
                let (rest, more) = mutated(input, corpus, dict, max, g, o + 1 + used, (attempts - 1) as nat);
                (rest, 1 + used + more)
            },
        }
    }
}

/// A mutation depends on the stream only through the words it draws.
proof fn lemma_mutation_shift(
    kind: u64,
    input: Seq<u8>,
    corpus: Seq<Vec<u8>>,
    dict: Seq<Vec<u8>>,
    max: nat,
    g1: XorShift64,
    o1: nat,
    g2: XorShift64,
    o2: nat,
)
    requires
        forall|k: nat| #[trigger] g1.nth_output(o1 + k) == g2.nth_output(o2 + k),
    ensures
        mutation(kind, input, corpus, dict, max, g1, o1) == mutation(kind, input, corpus, dict, max, g2, o2),
{
    reveal(mutation);
    assert(word(g1, o1, 0) == word(g2, o2, 0));
    assert(word(g1, o1, 1) == word(g2, o2, 1));
    assert(word(g1, o1, 2) == word(g2, o2, 2));
}

/// One step of [`mutated`]: a kind is drawn, and either its mutation
/// applies or the next attempt starts after the words it drew.
proof fn lemma_mutated_step(
    input: Seq<u8>,
    corpus: Seq<Vec<u8>>,
    dict: Seq<Vec<u8>>,
    max: nat,
    g: XorShift64,
    o: nat,
    attempts: nat,
)
    requires
        attempts > 0,
    ensures
        ({
            let kinds: u64 = if dict.len() > 0 {
                9
            } else {
                7
            };
            let (res, used) = mutation(word(g, o, 0) % kinds, input, corpus, dict, max, g, o + 1);
            let here = mutated(input, corpus, dict, max, g, o, attempts);
            let next = mutated(input, corpus, dict, max, g, o + 1 + used, (attempts - 1) as nat);
            &&& res matches Some(out) ==> here == (out, 1 + used)
            &&& res is None ==> here == (next.0, 1 + used + next.1)
        }),
{
    reveal(mutated);
}

/// With no attempt left, [`mutated`] appends a byte when there is room.
proof fn lemma_mutated_last(input: Seq<u8>, corpus: Seq<Vec<u8>>, dict: Seq<Vec<u8>>, max: nat, g: XorShift64, o: nat)
    ensures
        mutated(input, corpus, dict, max, g, o, 0) == (if input.len() < max {
            (input.push(word(g, o, 0) as u8), 1nat)
        } else {
            (input, 0nat)
        }),
{
    reveal(mutated);
}

/// Overwrites bytes from `pos` with the start of `entry`, as many as fit.
fn overwrite_at(input: &mut Vec<u8>, pos: usize, entry: &[u8])
    requires
        pos < old(input)@.len(),
    ensures
        final(input)@ == overwritten(old(input)@, pos as nat, entry@),
{
    let len = input.len();
    let room = len - pos;
    let n = if entry.len() < room { entry.len() } else { room };
    let ghost start = input@;
    let mut k: usize = 0;
    while k < n
        invariant
            input@.len() == len,
            start.len() == len,
            pos + n <= len,
            n <= entry@.len(),
            n == (if entry@.len() < len - pos { entry@.len() as int } else { len - pos }),
            k <= n,
            forall|i: int|
                0 <= i < len ==> #[trigger] input@[i] == (if pos <= i < pos + k { entry@[i - pos] } else { start[i] }),
        decreases n - k,
    {
        input.set(pos + k, entry[k]);
        k = k + 1;
    }
    assert(input@ =~= overwritten(start, pos as nat, entry@));
}

/// Tries the mutation of kind `choice`; returns whether it applied. An
/// input that is not mutated is left as it was.
fn try_mutation(
    rng: &mut XorShift64,
    input: &mut Vec<u8>,
    corpus: &[Vec<u8>],
    dictionary: &[Vec<u8>],
    max_len: usize,
    choice: u64,
) -> (applied: bool)
    ensures
        ({
            let (res, used) = mutation(choice, old(input)@, corpus@, dictionary@, max_len as nat, *old(rng), 0);
            &&& applied == res is Some
            &&& final(input)@ == (match res {
                Some(out) => out,
                None => old(input)@,
            })
            &&& forall|k: nat| #[trigger] final(rng).nth_output(k) == old(rng).nth_output(k + used)
        }),
        !applied ==> final(input)@ == old(input)@,
        applied ==> final(input)@.len() <= (if old(input)@.len() > max_len { old(input)@.len() } else { max_len as nat }),
{
    reveal(mutation);
    let ghost g = *rng;
    let ghost i0 = input@;
    let len = input.len();
    if choice == 0 && len > 0 {
        let i = rng.gen_range_usize(0, len);
        let bit = rng.gen_range_u64(0, 8) as u8;
        let mask: u8 = 1u8 << bit;
        input.set(i, input[i] ^ mask);
        true
    } else if choice == 1 && len > 0 {
        let i = rng.gen_range_usize(0, len);
        let b = rng.next_u64() as u8;
        input.set(i, b);
        true
    } else if choice == 2 && len > 0 {
        let i = rng.gen_range_usize(0, len);
        let k = rng.gen_range_usize(0, 7);
        input.set(i, interesting(k));
        true
    } else if choice == 3 && len < max_len {
        let i = rng.gen_range_usize(0, len + 1);
        let b = rng.next_u64() as u8;
        input.insert(i, b);
        true
    } else if choice == 4 && len > 0 {
        let i = rng.gen_range_usize(0, len);
        input.remove(i);
        true
    } else if choice == 5 && corpus.len() > 0 && len > 0 && len < usize::MAX {
        let idx = rng.gen_range_usize(0, corpus.len());
        let other = copy_bytes(corpus[idx].as_slice());
        if other.len() > 0 {
            let cut_self = rng.gen_range_usize(0, len + 1);
            let cut_other = rng.gen_range_usize(0, other.len());
            let spliced = splice(input, cut_self, other.as_slice(), cut_other, max_len);
            *input = spliced;
            true
        } else {
            false
        }
    } else if choice == 6 && len > 1 {
        let i = rng.gen_range_usize(0, len);
        let j = rng.gen_range_usize(0, len);
        let a = input[i];
        let b = input[j];
        input.set(i, b);
        input.set(j, a);
        true
    } else if choice == 7 && dictionary.len() > 0 && len < max_len {
        let d = rng.gen_range_usize(0, dictionary.len());
        let entry = dictionary[d].as_slice();
        let pos = rng.gen_range_usize(0, len + 1);
        let head = splice(input, pos, entry, 0, usize::MAX);
        assert(entry@.skip(0) == entry@);
        let joined = splice(&head, head.len(), input.as_slice(), pos, max_len);
        assert(head@.take(head@.len() as int) == head@);
        *input = joined;
        true
    } else if choice == 8 && dictionary.len() > 0 && len > 0 {
        let d = rng.gen_range_usize(0, dictionary.len());
        let entry = dictionary[d].as_slice();
        if entry.len() > 0 {
            let pos = rng.gen_range_usize(0, len);
            overwrite_at(input, pos, entry);
            true
        } else {
            false
        }
    } else {
        false
    }
}

/// Draws a mutation kind below `kinds` and tries it.
fn one_attempt(
    rng: &mut XorShift64,
    input: &mut Vec<u8>,
    corpus: &[Vec<u8>],
    dictionary: &[Vec<u8>],
    max_len: usize,
    kinds: u64,
) -> (applied: bool)
    requires
        kinds > 0,
    ensures
        ({
            let choice = old(rng).nth_output(0) % kinds;
            let (res, used) = mutation(choice, old(input)@, corpus@, dictionary@, max_len as nat, *old(rng), 1);
            &&& applied == res is Some
            &&& final(input)@ == (match res {
                Some(out) => out,
                None => old(input)@,
            })
            &&& forall|k: nat| #[trigger] final(rng).nth_output(k) == old(rng).nth_output(k + 1 + used)
        }),
        applied ==> final(input)@.len() <= (if old(input)@.len() > max_len { old(input)@.len() } else { max_len as nat }),
{
    let ghost before = *rng;
    let choice = rng.gen_range_u64(0, kinds);
    let ghost after = *rng;
    let applied = try_mutation(rng, input, corpus, dictionary, max_len, choice);
    proof {
        assert forall|k: nat| #[trigger] after.nth_output(0 + k) == before.nth_output(1 + k) by {
            assert(after.nth_output(k) == before.nth_output(k + 1));
        }
        lemma_mutation_shift(choice, old(input)@, corpus@, dictionary@, max_len as nat, after, 0, before, 1);
        let used = mutation(choice, old(input)@, corpus@, dictionary@, max_len as nat, before, 1).1;
        assert forall|k: nat| #[trigger] rng.nth_output(k) == before.nth_output(k + 1 + used) by {
            assert(rng.nth_output(k) == after.nth_output(k + used));
            assert(after.nth_output(k + used) == before.nth_output(k + used + 1));
        }
    }
    applied
}

/// Applies one random mutation to `input`: up to three mutation kinds are
/// drawn until one applies (see [`mutation`]); when none does, a random byte
/// is appended if the input is shorter than `max_len`. The result and the
/// words drawn are those of [`mutated`]; an input no longer than `max_len`
/// stays so.
pub fn mutate(
    rng: &mut XorShift64,
    input: &mut Vec<u8>,
    corpus: &[Vec<u8>],
    dictionary: &[Vec<u8>],
    max_len: usize,
)
    ensures
        final(input)@ == mutated(old(input)@, corpus@, dictionary@, max_len as nat, *old(rng), 0, 3).0,
        forall|k: nat| #[trigger] final(rng).nth_output(k) == old(rng).nth_output(
            k + mutated(old(input)@, corpus@, dictionary@, max_len as nat, *old(rng), 0, 3).1,
        ),
        final(input)@.len() <= (if old(input)@.len() > max_len { old(input)@.len() } else { max_len as nat }),
{
    let ghost g0 = *rng;
    let ghost i0 = input@;
    let ghost total = mutated(i0, corpus@, dictionary@, max_len as nat, g0, 0, 3);
    let kinds: u64 = if dictionary.len() > 0 { 9 } else { 7 };
    let ghost mut off: nat = 0;
    let mut attempt: usize = 0;
    let mut applied = false;
    while attempt < 3 && !applied
        invariant
            attempt <= 3,
            kinds == (if dictionary@.len() > 0 { 9u64 } else { 7u64 }),
            total == mutated(i0, corpus@, dictionary@, max_len as nat, g0, 0, 3),
            !applied ==> {
                &&& input@ == i0
                &&& forall|k: nat| #[trigger] rng.nth_output(k) == g0.nth_output(off + k)
                &&& total.0 == mutated(i0, corpus@, dictionary@, max_len as nat, g0, off, (3 - attempt) as nat).0
                &&& total.1 == off + mutated(i0, corpus@, dictionary@, max_len as nat, g0, off, (3 - attempt) as nat).1
            },
            applied ==> {
                &&& input@ == total.0
                &&& forall|k: nat| #[trigger] rng.nth_output(k) == g0.nth_output(k + total.1)
                &&& input@.len() <= (if i0.len() > max_len { i0.len() } else { max_len as nat })
            },
        decreases 3 - attempt,
    {
        let ghost before = *rng;
        applied = one_attempt(rng, input, corpus, dictionary, max_len, kinds);
        proof {
            assert forall|k: nat| #[trigger] before.nth_output(0 + k) == g0.nth_output(off + k) by {}
            let choice = before.nth_output(0) % kinds;
            assert(choice == word(g0, off, 0) % kinds);
            assert forall|k: nat| #[trigger] before.nth_output(1 + k) == g0.nth_output((off + 1) + k) by {
                assert(before.nth_output(1 + k) == g0.nth_output(off + (1 + k)));
            }
            lemma_mutation_shift(choice, i0, corpus@, dictionary@, max_len as nat, before, 1, g0, off + 1);
            lemma_mutated_step(i0, corpus@, dictionary@, max_len as nat, g0, off, (3 - attempt) as nat);
            let used = mutation(choice, i0, corpus@, dictionary@, max_len as nat, g0, off + 1).1;
            if applied {
                assert forall|k: nat| #[trigger] rng.nth_output(k) == g0.nth_output(k + total.1) by {
                    assert(rng.nth_output(k) == before.nth_output(k + 1 + used));
                    assert(before.nth_output(k + 1 + used) == g0.nth_output(off + (k + 1 + used)));
                }
            } else {
                assert forall|k: nat| #[trigger] rng.nth_output(k) == g0.nth_output((off + 1 + used) + k) by {
                    assert(rng.nth_output(k) == before.nth_output(k + 1 + used));
                    assert(before.nth_output(k + 1 + used) == g0.nth_output(off + (k + 1 + used)));
                }
                off = off + 1 + used;
            }
        }
        attempt = attempt + 1;
    }
    if !applied {
        proof {
            lemma_mutated_last(i0, corpus@, dictionary@, max_len as nat, g0, off);
        }
        if input.len() < max_len {
            let ghost before = *rng;
            let b = rng.next_u64() as u8;
            proof {
                assert(before.nth_output(0) == g0.nth_output(off + 0));
                assert forall|k: nat| #[trigger] rng.nth_output(k) == g0.nth_output(k + total.1) by {
                    assert(rng.nth_output(k) == before.nth_output(k + 1));
                    assert(before.nth_output(k + 1) == g0.nth_output(off + (k + 1)));
                }
            }
            input.push(b);
        } else {
            proof {
                assert forall|k: nat| #[trigger] rng.nth_output(k) == g0.nth_output(k + total.1) by {
                    assert(rng.nth_output(k) == g0.nth_output(off + k));
                }
            }
        }
    }
}

/// Running the target on `bytes` can crash.
pub open spec fn crashes<F: Fn(&[u8]) -> Result<(), String>>(target: F, bytes: Seq<u8>) -> bool {
    exists|x: &[u8], r: Result<(), String>| x@ == bytes && call_ensures(target, (x,), r) && r is Err
}

/// `r` is `crash` with the bytes at positions outside `idx` deleted and
/// some of the kept ones set to zero: `r[j]` comes from `crash[idx[j]]`,
/// and `idx` is strictly increasing.
pub open spec fn thinned_by(crash: Seq<u8>, r: Seq<u8>, idx: Seq<int>) -> bool {
    &&& idx.len() == r.len()
    &&& forall|j: int| 0 <= j < r.len() ==> 0 <= #[trigger] idx[j] < crash.len() && (r[j] == crash[idx[j]] || r[j] == 0)
    &&& forall|a: int, b: int| 0 <= a < b < idx.len() ==> #[trigger] idx[a] < #[trigger] idx[b]
}

/// `r` is `crash` with some bytes deleted and some of the rest set to zero.
pub open spec fn thinned(crash: Seq<u8>, r: Seq<u8>) -> bool {
    exists|idx: Seq<int>| thinned_by(crash, r, idx)
}

/// Deleting a byte keeps a thinned input thinned.
proof fn lemma_thinned_remove(crash: Seq<u8>, r: Seq<u8>, idx: Seq<int>, i: int)
    requires
        thinned_by(crash, r, idx),
        0 <= i < r.len(),
    ensures
        thinned_by(crash, r.remove(i), idx.remove(i)),
{
    let r2 = r.remove(i);
    let i2 = idx.remove(i);
    assert forall|j: int| 0 <= j < r2.len() implies 0 <= #[trigger] i2[j] < crash.len() && (r2[j] == crash[i2[j]] || r2[j] == 0) by {
        if j < i {
            assert(i2[j] == idx[j] && r2[j] == r[j]);
        } else {
            assert(i2[j] == idx[j + 1] && r2[j] == r[j + 1]);
        }
    }
    assert forall|a: int, b: int| 0 <= a < b < i2.len() implies #[trigger] i2[a] < #[trigger] i2[b] by {
        let a1 = if a < i { a } else { a + 1 };
        let b1 = if b < i { b } else { b + 1 };
        assert(i2[a] == idx[a1] && i2[b] == idx[b1]);
    }
}

/// Zeroing a byte keeps a thinned input thinned.
proof fn lemma_thinned_zero(crash: Seq<u8>, r: Seq<u8>, idx: Seq<int>, i: int)
    requires
        thinned_by(crash, r, idx),
        0 <= i < r.len(),
    ensures
        thinned_by(crash, r.update(i, 0), idx),
{
    let r2 = r.update(i, 0);
    assert forall|j: int| 0 <= j < r2.len() implies 0 <= #[trigger] idx[j] < crash.len() && (r2[j] == crash[idx[j]] || r2[j] == 0) by {
        if j != i {
            assert(r2[j] == r[j]);
        }
    }
}

/// The target ran on some slice holding `bytes` and did not fail.
pub open spec fn passes_on<F: Fn(&[u8]) -> Result<(), String>>(target: F, bytes: Seq<u8>) -> bool {
    exists|v: Result<(), String>| #[trigger] ran_on(target, bytes, v) && v is Ok
}

/// The target ran on some slice holding `bytes`.
pub open spec fn ran_some<F: Fn(&[u8]) -> Result<(), String>>(target: F, bytes: Seq<u8>) -> bool {
    exists|v: Result<(), String>| #[trigger] ran_on(target, bytes, v)
}

/// The zeroing of byte `k` tried in the second phase of [`minimize`]: the
/// final bytes before `k`, zero at `k`, the first phase's bytes after it.
pub open spec fn zeroing_tried(r: Seq<u8>, m: Seq<u8>, k: int) -> Seq<u8> {
    (r.take(k) + m.skip(k)).update(k, 0)
}

/// How [`minimize`] reached `r` with the budget `max_steps`. Its first
/// phase ran the target on the removals of `runs` (each a step) and ended
/// at `m`: either the budget ran out there (and `r` is `m`), or no single
/// removal from `m` fails. Its second phase then took the positions
/// before `j` in turn, each a step, trying to zero each non-zero byte: a
/// byte of `r` there is `m`'s byte or zero, and a non-zero one stayed
/// because its zeroing passed; from `j` on `r` is `m`. It stopped at the
/// end of `m` or when the steps reached `max_steps`. So the target ran at
/// most `max_steps` times.
pub open spec fn minimize_trace<F: Fn(&[u8]) -> Result<(), String>>(
    target: F,
    max_steps: usize,
    r: Seq<u8>,
    m: Seq<u8>,
    runs: Seq<Seq<u8>>,
    j: int,
) -> bool {
    &&& runs.len() <= max_steps
    &&& forall|q: int| 0 <= q < runs.len() ==> #[trigger] ran_some(target, runs[q])
    &&& {
        ||| (runs.len() == max_steps && r == m)
        ||| {
            &&& forall|k: int| 0 <= k < m.len() ==> #[trigger] passes_on(target, m.remove(k))
            &&& 0 <= j <= m.len()
            &&& runs.len() + j <= max_steps
            &&& (j == m.len() || runs.len() + j == max_steps)
            &&& r.len() == m.len()
            &&& forall|k: int| j <= k < m.len() ==> #[trigger] r[k] == m[k]
            &&& forall|k: int| 0 <= k < j ==> #[trigger] r[k] == m[k] || r[k] == 0
            &&& forall|k: int| 0 <= k < j && m[k] != 0 && #[trigger] r[k] != 0 ==> passes_on(target, zeroing_tried(r, m, k))
        }
    }
}

/// Shrinks a crashing input: removes bytes one at a time while the target
/// still crashes (repeating over the whole input until no removal helps),
/// then sets each non-zero byte to zero where the target still crashes; at
/// most `max_steps` steps in all, each step one removal tried or one byte
/// position visited. [`minimize_trace`] states the runs observed: either
/// the budget ran out, or no single removal from the first phase's result
/// and no kept non-zero byte's zeroing made the target fail.
pub fn minimize<F: Fn(&[u8]) -> Result<(), String>>(crash: &[u8], target: &F, max_steps: usize) -> (r: Vec<u8>)
    requires
        forall|x: &[u8]| call_requires(*target, (x,)),
    ensures
        r@ == crash@ || crashes(*target, r@),
        r@.len() <= crash@.len(),
        thinned(crash@, r@),
        exists|m: Seq<u8>, runs: Seq<Seq<u8>>, j: int| #[trigger] minimize_trace(*target, max_steps, r@, m, runs, j),
{
    let mut current = copy_bytes(crash);
    let ghost mut runs: Seq<Seq<u8>> = seq![];
    let ghost mut idx: Seq<int> = Seq::new(crash@.len(), |j: int| j);
    assert(thinned_by(crash@, current@, idx));
    let mut steps: usize = 0;
    loop
        invariant
            forall|x: &[u8]| call_requires(*target, (x,)),
            steps <= max_steps,
            current@ == crash@ || crashes(*target, current@),
            current@.len() <= crash@.len(),
            thinned_by(crash@, current@, idx),
            runs.len() == steps,
            forall|q: int| 0 <= q < runs.len() ==> #[trigger] ran_some(*target, runs[q]),
        ensures
            forall|k: int| 0 <= k < current@.len() ==> #[trigger] passes_on(*target, current@.remove(k)),
        decreases max_steps - steps,
    {
        if current.len() == 0 {
            proof {
                assert(minimize_trace(*target, max_steps, current@, current@, runs, 0));
            }
            return current;
        }
        let mut shrunk = false;
        let mut i: usize = 0;
        let start_steps = steps;
        while i < current.len()
            invariant
                forall|x: &[u8]| call_requires(*target, (x,)),
                steps <= max_steps,
                start_steps <= steps,
                shrunk ==> steps > start_steps,
                current@ == crash@ || crashes(*target, current@),
                current@.len() <= crash@.len(),
                thinned_by(crash@, current@, idx),
                runs.len() == steps,
                forall|q: int| 0 <= q < runs.len() ==> #[trigger] ran_some(*target, runs[q]),
                i <= current@.len(),
                !shrunk ==> forall|k: int| 0 <= k < i ==> #[trigger] passes_on(*target, current@.remove(k)),
            decreases current@.len() - i, max_steps - steps,
        {
            if steps >= max_steps {
                proof {
                    assert(minimize_trace(*target, max_steps, current@, current@, runs, 0));
                }
                return current;
            }
            steps = steps + 1;
            let mut candidate = copy_bytes(current.as_slice());
            candidate.remove(i);
            let res = target(candidate.as_slice());
            proof {
                assert(ran_on(*target, candidate@, res));
                assert(ran_some(*target, candidate@));
                let r0 = runs;
                runs = runs.push(candidate@);
                assert forall|q: int| 0 <= q < runs.len() implies #[trigger] ran_some(*target, runs[q]) by {
                    if q < r0.len() {
                        assert(runs[q] == r0[q]);
                    }
                }
                if res.is_ok() {
                    assert(passes_on(*target, current@.remove(i as int)));
                }
            }
            if res.is_err() {
                proof {
                    lemma_thinned_remove(crash@, current@, idx, i as int);
                    idx = idx.remove(i as int);
                }
                current = candidate;
                shrunk = true;
            } else {
                i = i + 1;
            }
        }
        if !shrunk {
            break;
        }
    }
    let ghost m = current@;
    let ghost removals = runs;
    let mut i: usize = 0;
    while i < current.len()
        invariant
            forall|x: &[u8]| call_requires(*target, (x,)),
            steps <= max_steps,
            current@ == crash@ || crashes(*target, current@),
            current@.len() <= crash@.len(),
            thinned_by(crash@, current@, idx),
            removals.len() <= max_steps,
            forall|q: int| 0 <= q < removals.len() ==> #[trigger] ran_some(*target, removals[q]),
            forall|k: int| 0 <= k < m.len() ==> #[trigger] passes_on(*target, m.remove(k)),
            steps == removals.len() + i,
            current@.len() == m.len(),
            i <= m.len(),
            forall|k: int| i <= k < m.len() ==> #[trigger] current@[k] == m[k],
            forall|k: int| 0 <= k < i ==> #[trigger] current@[k] == m[k] || current@[k] == 0,
            forall|k: int| 0 <= k < i && m[k] != 0 && #[trigger] current@[k] != 0 ==> passes_on(*target, zeroing_tried(current@, m, k)),
        decreases current@.len() - i,
    {
        if steps >= max_steps {
            proof {
                assert(minimize_trace(*target, max_steps, current@, m, removals, i as int));
            }
            return current;
        }
        steps = steps + 1;
        if current[i] != 0 {
            let mut candidate = copy_bytes(current.as_slice());
            candidate.set(i, 0);
            let res = target(candidate.as_slice());
            proof {
                assert(current@.take(i as int) + m.skip(i as int) == current@);
                assert(candidate@ == zeroing_tried(current@, m, i as int));
                assert(ran_on(*target, candidate@, res));
            }
            if res.is_err() {
                proof {
                    lemma_thinned_zero(crash@, current@, idx, i as int);
                    let c0 = current@;
                    let c1 = candidate@;
                    assert forall|k: int| 0 <= k < i && m[k] != 0 && #[trigger] c1[k] != 0 implies passes_on(*target, zeroing_tried(c1, m, k)) by {
                        assert(c1[k] == c0[k]);
                        assert(c1.take(k) == c0.take(k));
                    }
                }
                current = candidate;
            } else {
                proof {
                    assert(passes_on(*target, zeroing_tried(current@, m, i as int)));
                }
            }
        }
        i = i + 1;
    }
    proof {
        assert(minimize_trace(*target, max_steps, current@, m, removals, i as int));
    }
    current
}

/// `v` holds a string equal to `m`.
fn contains_message(v: &Vec<String>, m: &String) -> (r: bool)
    ensures
        r == exists|j: int| 0 <= j < v@.len() && #[trigger] v@[j]@ == m@,
{
    let mut i: usize = 0;
    while i < v.len()
        invariant
            i <= v@.len(),
            forall|j: int| 0 <= j < i ==> #[trigger] v@[j]@ != m@,
        decreases v@.len() - i,
    {
        if v[i] == *m {
            return true;
        }
        i = i + 1;
    }
    false
}

/// A corpus entry worth keeping: its hash and its bytes.
pub open spec fn entry_fits(e: (u64, Vec<u8>)) -> bool {
    e.0 == fnv(e.1@)
}

/// The facts every fuzzing report satisfies.
pub open spec fn report_fits<F: Fn(&[u8]) -> Result<(), String>>(cfg: FuzzConfig, target: F, r: FuzzReport) -> bool {
    &&& report_shaped(cfg, r)
    &&& forall|k: int| 0 <= k < r.failures@.len() ==> crashes(target, #[trigger] r.failures@[k].input@)
}

/// The parts of [`report_fits`] that do not depend on the target: the
/// seed, the iterations completed, and the crashes' iterations and
/// messages.
pub open spec fn report_shaped(cfg: FuzzConfig, r: FuzzReport) -> bool {
    let fs = r.failures@;
    &&& r.seed == cfg.seed
    &&& r.iterations == (if !cfg.continue_after_crash && fs.len() > 0 { fs[0].iteration } else { cfg.iterations })
    &&& forall|k: int| 0 <= k < fs.len() ==> 1 <= #[trigger] fs[k].iteration <= cfg.iterations
    &&& forall|a: int, b: int| 0 <= a < b < fs.len() ==> #[trigger] fs[a].iteration < #[trigger] fs[b].iteration
    &&& cfg.dedup_by_message ==> forall|a: int, b: int| 0 <= a < b < fs.len() ==> #[trigger] fs[a].message@ != #[trigger] fs[b].message@
    &&& !cfg.continue_after_crash ==> fs.len() <= 1
}

/// `ms` are inputs mutated in turn, `ms[j + 1]` being [`mutated`] of
/// `ms[j]` from the generator `gs[j]`, and `gs[j + 1]` the generator after
/// the words that mutation drew.
pub open spec fn mutation_chain(corpus: Seq<Vec<u8>>, dict: Seq<Vec<u8>>, max: nat, ms: Seq<Seq<u8>>, gs: Seq<XorShift64>) -> bool {
    &&& ms.len() >= 1
    &&& gs.len() == ms.len()
    &&& forall|j: int|
        0 <= j < ms.len() - 1 ==> {
            &&& ms[j + 1] == (#[trigger] mutated(ms[j], corpus, dict, max, gs[j], 0, 3)).0
            &&& forall|k: nat| #[trigger] gs[j + 1].nth_output(k) == gs[j].nth_output(k + mutated(ms[j], corpus, dict, max, gs[j], 0, 3).1)
        }
}

/// `input` is what one fuzzing iteration hands the target when it starts
/// on the generator `g` with the corpus `corpus`: the entry at the first
/// word modulo the corpus length, mutated `1 + (w mod 4)` times in turn by
/// [`mutated`], `w` the second word, each mutation starting where the one
/// before left the generator; `g2` is the generator after the last.
pub open spec fn fed_from(corpus: Seq<Vec<u8>>, dict: Seq<Vec<u8>>, max: nat, g: XorShift64, g2: XorShift64, input: Seq<u8>) -> bool {
    exists|ms: Seq<Seq<u8>>, gs: Seq<XorShift64>|
        {
            &&& #[trigger] mutation_chain(corpus, dict, max, ms, gs)
            &&& ms.len() == 2 + g.nth_output(1) % 4
            &&& ms[0] == corpus[g.nth_output(0) as int % corpus.len() as int]@
            &&& forall|k: nat| #[trigger] gs[0].nth_output(k) == g.nth_output(k + 2)
            &&& ms.last() == input
            &&& gs.last() == g2
        }
}

/// One more mutation extends a mutation chain.
proof fn lemma_chain_push(
    corpus: Seq<Vec<u8>>,
    dict: Seq<Vec<u8>>,
    max: nat,
    ms: Seq<Seq<u8>>,
    gs: Seq<XorShift64>,
    x: Seq<u8>,
    g: XorShift64,
)
    requires
        mutation_chain(corpus, dict, max, ms, gs),
        x == mutated(ms.last(), corpus, dict, max, gs.last(), 0, 3).0,
        forall|k: nat| #[trigger] g.nth_output(k) == gs.last().nth_output(k + mutated(ms.last(), corpus, dict, max, gs.last(), 0, 3).1),
    ensures
        mutation_chain(corpus, dict, max, ms.push(x), gs.push(g)),
{
    let nm = ms.push(x);
    let ng = gs.push(g);
    assert forall|j: int| 0 <= j < nm.len() - 1 implies {
        &&& nm[j + 1] == (#[trigger] mutated(nm[j], corpus, dict, max, ng[j], 0, 3)).0
        &&& forall|k: nat| #[trigger] ng[j + 1].nth_output(k) == ng[j].nth_output(k + mutated(nm[j], corpus, dict, max, ng[j], 0, 3).1)
    } by {
        if j < ms.len() - 1 {
            assert(nm[j] == ms[j] && nm[j + 1] == ms[j + 1] && ng[j] == gs[j] && ng[j + 1] == gs[j + 1]);
        } else {
            assert(nm[j] == ms.last() && ng[j] == gs.last() && nm[j + 1] == x && ng[j + 1] == g);
        }
    }
}

/// One fuzzing iteration's input, drawn as [`fed_from`] says.
#[verifier::rlimit(40)]
fn fuzz_input(rng: &mut XorShift64, corpus: &Vec<Vec<u8>>, dict: &Vec<Vec<u8>>, max_len: usize) -> (r: Vec<u8>)
    requires
        corpus@.len() > 0,
    ensures
        fed_from(corpus@, dict@, max_len as nat, *old(rng), *final(rng), r@),
{
    let ghost g0 = *rng;
    let idx = rng.gen_range_usize(0, corpus.len());
    let mut input = copy_bytes(corpus[idx].as_slice());
    let n_mutations = rng.gen_range_u64(1, 5);
    let ghost first = input@;
    let ghost g2 = *rng;
    let ghost mut ms: Seq<Seq<u8>> = seq![input@];
    let ghost mut gs: Seq<XorShift64> = seq![*rng];
    proof {
        assert(first == corpus@[g0.nth_output(0) as int % corpus@.len() as int]@);
        assert(n_mutations == 1 + g0.nth_output(1) % 4);
        assert forall|k: nat| #[trigger] g2.nth_output(k) == g0.nth_output(k + 2) by {
        }
    }
    let mut m: u64 = 0;
    while m < n_mutations
        invariant
            m <= n_mutations,
            ms.len() == m + 1,
            ms[0] == first,
            gs[0] == g2,
            mutation_chain(corpus@, dict@, max_len as nat, ms, gs),
            ms.last() == input@,
            gs.last() == *rng,
        decreases n_mutations - m,
    {
        let ghost before = *rng;
        let ghost x0 = input@;
        mutate(rng, &mut input, corpus.as_slice(), dict.as_slice(), max_len);
        proof {
            lemma_chain_push(corpus@, dict@, max_len as nat, ms, gs, input@, *rng);
            ms = ms.push(input@);
            gs = gs.push(*rng);
        }
        m = m + 1;
    }
    input
}

/// The corpus the fuzzing loop starts with: the initial corpus then the
/// loaded entries, or one empty input when both are empty.
pub open spec fn starting_corpus(initial: Seq<Vec<u8>>, loaded: Seq<Vec<u8>>, c: Seq<Vec<u8>>) -> bool {
    if initial.len() + loaded.len() == 0 {
        c.len() == 1 && c[0]@.len() == 0
    } else {
        &&& c.len() == initial.len() + loaded.len()
        &&& forall|j: int| 0 <= j < initial.len() ==> (#[trigger] c[j])@ == initial[j]@
        &&& forall|j: int| 0 <= j < loaded.len() ==> #[trigger] c[initial.len() + j] == loaded[j]
    }
}

/// Across one iteration the corpus stays, or (after an input the target
/// passed) grows by that input.
pub open spec fn corpus_step(c0: Seq<Vec<u8>>, c1: Seq<Vec<u8>>, input: Seq<u8>, v: Result<(), String>) -> bool {
    ||| c1 == c0
    ||| (v is Ok && c1.len() == c0.len() + 1 && c1.take(c0.len() as int) == c0 && c1.last()@ == input)
}

/// The inputs of a run come from the generator seeded with `cfg.seed`:
/// iteration `j` starts on `gens[j]` with the corpus `corpora[j]`, hands
/// the target the input [`fed_from`] gives, and leaves `gens[j + 1]` and
/// `corpora[j + 1]`.
pub open spec fn fuzz_fed(
    cfg: FuzzConfig,
    loaded: Seq<Vec<u8>>,
    gens: Seq<XorShift64>,
    corpora: Seq<Seq<Vec<u8>>>,
    inputs: Seq<Seq<u8>>,
    verdicts: Seq<Result<(), String>>,
) -> bool {
    &&& gens.len() == inputs.len() + 1
    &&& corpora.len() == inputs.len() + 1
    &&& verdicts.len() == inputs.len()
    &&& gens[0].spec_state() == seeded_state(cfg.seed)
    &&& starting_corpus(cfg.initial_corpus@, loaded, corpora[0])
    &&& forall|j: int| 0 <= j < inputs.len() ==> #[trigger] fed_from(corpora[j], cfg.dictionary@, cfg.max_input_len as nat, gens[j], gens[j + 1], inputs[j])
    &&& forall|j: int| 0 <= j < inputs.len() ==> #[trigger] corpus_step(corpora[j], corpora[j + 1], inputs[j], verdicts[j])
}

/// A run's report with the inputs handed to the target, its verdicts, and
/// where the inputs came from: [`fuzz_traced`] and [`fuzz_fed`].
pub open spec fn fuzz_described(
    cfg: FuzzConfig,
    ran: spec_fn(Seq<u8>, Result<(), String>) -> bool,
    loaded: Seq<Vec<u8>>,
    r: FuzzReport,
    inputs: Seq<Seq<u8>>,
    verdicts: Seq<Result<(), String>>,
    gens: Seq<XorShift64>,
    corpora: Seq<Seq<Vec<u8>>>,
) -> bool {
    fuzz_traced(cfg, ran, r, inputs, verdicts) && fuzz_fed(cfg, loaded, gens, corpora, inputs, verdicts)
}

/// One more iteration extends the account of where a run's inputs come
/// from.
proof fn lemma_fed_push(
    cfg: FuzzConfig,
    loaded: Seq<Vec<u8>>,
    gens: Seq<XorShift64>,
    corpora: Seq<Seq<Vec<u8>>>,
    inputs: Seq<Seq<u8>>,
    verdicts: Seq<Result<(), String>>,
    g: XorShift64,
    c: Seq<Vec<u8>>,
    x: Seq<u8>,
    v: Result<(), String>,
)
    requires
        fuzz_fed(cfg, loaded, gens, corpora, inputs, verdicts),
        fed_from(corpora.last(), cfg.dictionary@, cfg.max_input_len as nat, gens.last(), g, x),
        corpus_step(corpora.last(), c, x, v),
    ensures
        fuzz_fed(cfg, loaded, gens.push(g), corpora.push(c), inputs.push(x), verdicts.push(v)),
{
    let ng = gens.push(g);
    let nc = corpora.push(c);
    let ni = inputs.push(x);
    let nv = verdicts.push(v);
    assert forall|j: int| 0 <= j < ni.len() implies #[trigger] fed_from(nc[j], cfg.dictionary@, cfg.max_input_len as nat, ng[j], ng[j + 1], ni[j]) by {
        if j < inputs.len() {
            assert(nc[j] == corpora[j] && ng[j] == gens[j] && ng[j + 1] == gens[j + 1] && ni[j] == inputs[j]);
        } else {
            assert(nc[j] == corpora.last() && ng[j] == gens.last() && ng[j + 1] == g && ni[j] == x);
        }
    }
    assert forall|j: int| 0 <= j < ni.len() implies #[trigger] corpus_step(nc[j], nc[j + 1], ni[j], nv[j]) by {
        if j < inputs.len() {
            assert(nc[j] == corpora[j] && nc[j + 1] == corpora[j + 1] && ni[j] == inputs[j] && nv[j] == verdicts[j]);
        } else {
            assert(nc[j] == corpora.last() && nc[j + 1] == c && ni[j] == x && nv[j] == v);
        }
    }
    assert(ng[0] == gens[0] && nc[0] == corpora[0]);
}

/// The target, run on some slice holding `bytes`, can give `v`.
pub open spec fn ran_on<F: Fn(&[u8]) -> Result<(), String>>(target: F, bytes: Seq<u8>, v: Result<(), String>) -> bool {
    exists|x: &[u8]| x@ == bytes && call_ensures(target, (x,), v)
}

/// `inputs` are the inputs [`run_fuzz`] handed to the target, in turn, and
/// `verdicts` what it gave on each; there is one per completed iteration.
/// Each reported crash comes from the iteration it names: the target
/// failed there with the reported message, and the reported input is that
/// iteration's input with some bytes deleted and some set to zero. Every
/// failing iteration is reported, except one whose message repeats an
/// earlier report while de-duplication is on.
pub open spec fn fuzz_traced(
    cfg: FuzzConfig,
    ran: spec_fn(Seq<u8>, Result<(), String>) -> bool,
    r: FuzzReport,
    inputs: Seq<Seq<u8>>,
    verdicts: Seq<Result<(), String>>,
) -> bool {
    let fs = r.failures@;
    &&& inputs.len() == r.iterations
    &&& verdicts.len() == inputs.len()
    &&& forall|j: int| 0 <= j < inputs.len() ==> #[trigger] ran(inputs[j], verdicts[j])
    &&& forall|k: int|
        0 <= k < fs.len() ==> {
            let it = #[trigger] fs[k].iteration - 1;
            &&& 0 <= it < inputs.len()
            &&& verdicts[it] is Err
            &&& verdicts[it]->Err_0@ == fs[k].message@
            &&& thinned(inputs[it], fs[k].input@)
        }
    &&& forall|j: int|
        0 <= j < inputs.len() && (#[trigger] verdicts[j]) is Err ==> {
            ||| exists|k: int| 0 <= k < fs.len() && #[trigger] fs[k].iteration == j + 1
            ||| cfg.dedup_by_message && exists|k: int|
                0 <= k < fs.len() && #[trigger] fs[k].iteration <= j && fs[k].message@ == verdicts[j]->Err_0@
        }
}

/// [`ran_on`] for `target`, as a relation.
pub open spec fn ran_by<F: Fn(&[u8]) -> Result<(), String>>(target: F) -> spec_fn(Seq<u8>, Result<(), String>) -> bool {
    |b: Seq<u8>, v: Result<(), String>| ran_on(target, b, v)
}

/// A trace stays a trace under a weaker account of the target's verdicts.
pub proof fn lemma_traced_weaken(
    cfg: FuzzConfig,
    ran1: spec_fn(Seq<u8>, Result<(), String>) -> bool,
    ran2: spec_fn(Seq<u8>, Result<(), String>) -> bool,
    r: FuzzReport,
    inputs: Seq<Seq<u8>>,
    verdicts: Seq<Result<(), String>>,
)
    requires
        fuzz_traced(cfg, ran1, r, inputs, verdicts),
        forall|b: Seq<u8>, v: Result<(), String>| #[trigger] ran1(b, v) ==> ran2(b, v),
    ensures
        fuzz_traced(cfg, ran2, r, inputs, verdicts),
{
    assert forall|j: int| 0 <= j < inputs.len() implies #[trigger] ran2(inputs[j], verdicts[j]) by {
        assert(ran1(inputs[j], verdicts[j]));
    }
}

/// A target that never returns an error yields no crash: every crash of a
/// fuzzing report is an input the target can fail on (as [`run_fuzz`]
/// ensures).
pub proof fn law_benign_target_has_no_crash<F: Fn(&[u8]) -> Result<(), String>>(
    cfg: FuzzConfig,
    target: F,
    r: FuzzReport,
)
    requires
        report_fits(cfg, target, r),
        forall|x: &[u8], res: Result<(), String>| call_ensures(target, (x,), res) ==> res is Ok,
    ensures
        r.failures@.len() == 0,
{
    if r.failures@.len() > 0 {
        assert(crashes(target, r.failures@[0].input@));
    }
}

/// Runs the fuzzing loop: `cfg.iterations` times, picks a corpus entry (the
/// initial corpus, then `loaded`, then kept inputs; the empty input when
/// there is none), applies one to four mutations and runs `target` on the
/// result. A passing input is kept for later splicing at every sixteenth
/// iteration while the corpus holds fewer than 1024 entries and the input
/// was not seen before. A crash is minimized and reported, unless its
/// message repeats an earlier one and de-duplication is on; the run stops
/// at the first reported crash unless `continue_after_crash` is set.
///
/// Returns the report and the inputs kept, each with its hash.
#[verifier::spinoff_prover]
#[verifier::rlimit(80)]
pub fn run_fuzz<F: Fn(&[u8]) -> Result<(), String>>(
    cfg: &FuzzConfig,
    loaded: Vec<Vec<u8>>,
    target: &F,
) -> (r: (FuzzReport, Vec<(u64, Vec<u8>)>))
    requires
        forall|x: &[u8]| call_requires(*target, (x,)),
    ensures
        report_fits(*cfg, *target, r.0),
        exists|inputs: Seq<Seq<u8>>, verdicts: Seq<Result<(), String>>, gens: Seq<XorShift64>, corpora: Seq<Seq<Vec<u8>>>|
            #[trigger] fuzz_described(*cfg, ran_by(*target), loaded@, r.0, inputs, verdicts, gens, corpora),
        forall|k: int| 0 <= k < r.1@.len() ==> entry_fits(#[trigger] r.1@[k]),
{
    let ghost loaded0 = loaded@;
    let mut rng = XorShift64::seed_from_u64(cfg.seed);
    let mut corpus: Vec<Vec<u8>> = Vec::new();
    let mut c: usize = 0;
    while c < cfg.initial_corpus.len()
        invariant
            c <= cfg.initial_corpus@.len(),
            corpus@.len() == c,
            forall|j: int| 0 <= j < c ==> (#[trigger] corpus@[j])@ == cfg.initial_corpus@[j]@,
        decreases cfg.initial_corpus@.len() - c,
    {
        corpus.push(copy_bytes(cfg.initial_corpus[c].as_slice()));
        c = c + 1;
    }
    let mut more = loaded;
    let ghost before_append = corpus@;
    corpus.append(&mut more);
    if corpus.len() == 0 {
        corpus.push(Vec::new());
    }
    proof {
        if cfg.initial_corpus@.len() + loaded0.len() != 0 {
            assert(corpus@ == before_append + loaded0);
            assert forall|j: int| 0 <= j < cfg.initial_corpus@.len() implies (#[trigger] corpus@[j])@ == cfg.initial_corpus@[j]@ by {
                assert(corpus@[j] == before_append[j]);
            }
            assert forall|j: int| 0 <= j < loaded0.len() implies #[trigger] corpus@[cfg.initial_corpus@.len() + j] == loaded0[j] by {
                assert(corpus@[cfg.initial_corpus@.len() + j] == (before_append + loaded0)[before_append.len() + j]);
            }
        }
        assert(starting_corpus(cfg.initial_corpus@, loaded0, corpus@));
    }
    let mut persisted: BTreeSet<u64> = BTreeSet::new();
    let mut c: usize = 0;
    while c < corpus.len()
        invariant
            c <= corpus@.len(),
        decreases corpus@.len() - c,
    {
        persisted.insert(fnv_hash(corpus[c].as_slice()));
        c = c + 1;
    }
    let mut kept: Vec<(u64, Vec<u8>)> = Vec::new();
    let mut failures: Vec<Failure> = Vec::new();
    let mut seen: Vec<String> = Vec::new();
    let ghost mut at: Seq<int> = seq![];
    let ghost mut inputs: Seq<Seq<u8>> = seq![];
    let ghost mut sown: Seq<int> = seq![];
    let ghost mut verdicts: Seq<Result<(), String>> = seq![];
    let ghost mut gens: Seq<XorShift64> = seq![rng];
    let ghost mut corpora: Seq<Seq<Vec<u8>>> = seq![corpus@];
    let mut i: usize = 0;
    while i < cfg.iterations
        invariant
            inputs.len() == i,
            verdicts.len() == i,
            fuzz_fed(*cfg, loaded0, gens, corpora, inputs, verdicts),
            loaded0 == loaded@,
            gens.last() == rng,
            corpora.last() == corpus@,
            forall|j: int| 0 <= j < inputs.len() ==> #[trigger] ran_on(*target, inputs[j], verdicts[j]),
            forall|k: int|
                0 <= k < failures@.len() ==> {
                    let it = #[trigger] failures@[k].iteration - 1;
                    &&& 0 <= it < inputs.len()
                    &&& verdicts[it] is Err
                    &&& verdicts[it]->Err_0@ == failures@[k].message@
                    &&& thinned(inputs[it], failures@[k].input@)
                },
            forall|j: int|
                0 <= j < inputs.len() && (#[trigger] verdicts[j]) is Err ==> {
                    ||| exists|k: int| 0 <= k < failures@.len() && #[trigger] failures@[k].iteration == j + 1
                    ||| cfg.dedup_by_message && exists|k: int|
                        0 <= k < failures@.len() && #[trigger] failures@[k].iteration <= j && failures@[k].message@ == verdicts[j]->Err_0@
                },
            sown.len() == seen@.len(),
            forall|q: int| 0 <= q < seen@.len() ==> 0 <= #[trigger] sown[q] < failures@.len() && failures@[sown[q]].message@ == seen@[q]@,
            forall|x: &[u8]| call_requires(*target, (x,)),
            i <= cfg.iterations,
            corpus@.len() > 0,
            forall|k: int| 0 <= k < kept@.len() ==> entry_fits(#[trigger] kept@[k]),
            forall|k: int| 0 <= k < failures@.len() ==> 1 <= #[trigger] failures@[k].iteration <= i,
            forall|k: int| 0 <= k < failures@.len() ==> crashes(*target, #[trigger] failures@[k].input@),
            forall|a: int, b: int| 0 <= a < b < failures@.len() ==> #[trigger] failures@[a].iteration < #[trigger] failures@[b].iteration,
            at.len() == failures@.len(),
            cfg.dedup_by_message ==> forall|k: int| 0 <= k < failures@.len() ==> 0 <= #[trigger] at[k] < seen@.len() && seen@[at[k]]@ == failures@[k].message@,
            cfg.dedup_by_message ==> forall|a: int, b: int| 0 <= a < b < failures@.len() ==> #[trigger] failures@[a].message@ != #[trigger] failures@[b].message@,
            !cfg.continue_after_crash ==> failures@.len() == 0,
        decreases cfg.iterations - i,
    {
        let ghost c_start = corpus@;
        let ghost gens_h = gens;
        let ghost corpora_h = corpora;
        let ghost inputs_h = inputs;
        let ghost verdicts_h = verdicts;
        let input = fuzz_input(&mut rng, &corpus, &cfg.dictionary, cfg.max_input_len);
        let res = target(input.as_slice());
        let ghost x_in = input@;
        let ghost v_in = res;
        proof {
            assert(ran_on(*target, input@, res));
            let ghost i0 = inputs;
            let ghost v0 = verdicts;
            inputs = inputs.push(input@);
            verdicts = verdicts.push(res);
            assert forall|j: int| 0 <= j < inputs.len() implies #[trigger] ran_on(*target, inputs[j], verdicts[j]) by {
                if j < i {
                    assert(inputs[j] == i0[j] && verdicts[j] == v0[j]);
                }
            }
            assert forall|k: int| 0 <= k < failures@.len() implies {
                let it = #[trigger] failures@[k].iteration - 1;
                &&& 0 <= it < inputs.len()
                &&& verdicts[it] is Err
                &&& verdicts[it]->Err_0@ == failures@[k].message@
                &&& thinned(inputs[it], failures@[k].input@)
            } by {
                let it = failures@[k].iteration - 1;
                assert(inputs[it] == i0[it] && verdicts[it] == v0[it]);
            }
            assert forall|j: int| 0 <= j < i && (#[trigger] verdicts[j]) is Err implies {
                ||| exists|k: int| 0 <= k < failures@.len() && #[trigger] failures@[k].iteration == j + 1
                ||| cfg.dedup_by_message && exists|k: int|
                    0 <= k < failures@.len() && #[trigger] failures@[k].iteration <= j && failures@[k].message@ == verdicts[j]->Err_0@
            } by {
                assert(verdicts[j] == v0[j]);
            }
        }
        match res {
            Ok(()) => {
                if corpus.len() < 1024 && i % 16 == 0 {
                    let h = fnv_hash(input.as_slice());
                    if !persisted.contains(&h) {
                        persisted.insert(h);
                        kept.push((h, copy_bytes(input.as_slice())));
                        corpus.push(input);
                        proof {
                            assert(corpus@.take(c_start.len() as int) == c_start);
                            assert(corpus@.last()@ == x_in);
                        }
                    }
                }
                proof {
                    assert(corpus_step(c_start, corpus@, x_in, v_in));
                }
            },
            Err(message) => {
                let repeated = contains_message(&seen, &message);
                proof {
                    assert(verdicts[i as int]->Err_0 == message);
                }
                if cfg.dedup_by_message && repeated {
                    proof {
                        let q = choose|q: int| 0 <= q < seen@.len() && #[trigger] seen@[q]@ == message@;
                        let k = sown[q];
                        assert(failures@[k].iteration <= i);
                        assert(verdicts[i as int] is Err);
                    }
                }
                if !(cfg.dedup_by_message && repeated) {
                    let ghost seen_before = seen@;
                    if !repeated {
                        seen.push(message.clone());
                    }
                    let minimized = minimize(input.as_slice(), target, cfg.minimize_steps);
                    let ghost before = failures@;
                    let ghost mv = message@;
                    proof {
                        assert(crashes(*target, input@));
                    }
                    failures.push(Failure { input: minimized, message, iteration: i + 1 });
                    proof {
                        let last = failures@.len() - 1;
                        assert(failures@[last].iteration == i + 1);
                        assert(failures@[last].message@ == mv);
                        assert(inputs[i as int] == input@);
                        assert forall|k: int| 0 <= k < failures@.len() implies {
                            let it = #[trigger] failures@[k].iteration - 1;
                            &&& 0 <= it < inputs.len()
                            &&& verdicts[it] is Err
                            &&& verdicts[it]->Err_0@ == failures@[k].message@
                            &&& thinned(inputs[it], failures@[k].input@)
                        } by {
                            if k < last {
                                assert(failures@[k] == before[k]);
                            }
                        }
                        assert forall|j: int| 0 <= j < inputs.len() && (#[trigger] verdicts[j]) is Err implies {
                            ||| exists|k: int| 0 <= k < failures@.len() && #[trigger] failures@[k].iteration == j + 1
                            ||| cfg.dedup_by_message && exists|k: int|
                                0 <= k < failures@.len() && #[trigger] failures@[k].iteration <= j && failures@[k].message@ == verdicts[j]->Err_0@
                        } by {
                            if j < i {
                                if exists|k: int| 0 <= k < before.len() && #[trigger] before[k].iteration == j + 1 {
                                    let k = choose|k: int| 0 <= k < before.len() && #[trigger] before[k].iteration == j + 1;
                                    assert(failures@[k] == before[k]);
                                } else {
                                    let k = choose|k: int| 0 <= k < before.len() && #[trigger] before[k].iteration <= j && before[k].message@ == verdicts[j]->Err_0@;
                                    assert(failures@[k] == before[k]);
                                }
                            } else {
                                assert(failures@[last].iteration == j + 1);
                            }
                        }
                        if !repeated {
                            sown = sown.push(last);
                        }
                        assert forall|q: int| 0 <= q < seen@.len() implies 0 <= #[trigger] sown[q] < failures@.len() && failures@[sown[q]].message@ == seen@[q]@ by {
                            if q < seen_before.len() {
                                assert(seen@[q] == seen_before[q]);
                                assert(failures@[sown[q]] == before[sown[q]]);
                            } else {
                                assert(seen@[q]@ == mv);
                            }
                        }
                        at = at.push((seen@.len() - 1) as int);
                        if cfg.dedup_by_message {
                            assert(seen@.last()@ == mv);
                            assert forall|k: int| 0 <= k < failures@.len() implies 0 <= #[trigger] at[k] < seen@.len() && seen@[at[k]]@ == failures@[k].message@ by {
                                if k < failures@.len() - 1 {
                                    assert(failures@[k] == before[k]);
                                    assert(seen@[at[k]] == seen_before[at[k]]);
                                }
                            }
                            assert forall|a: int, b: int| 0 <= a < b < failures@.len() implies #[trigger] failures@[a].message@ != #[trigger] failures@[b].message@ by {
                                assert(failures@[a] == before[a]);
                                if b < failures@.len() - 1 {
                                    assert(failures@[b] == before[b]);
                                } else {
                                    assert(seen_before[at[a]]@ == before[a].message@);
                                }
                            }
                        }
                    }
                    if !cfg.continue_after_crash {
                        let iterations = i + 1;
                        proof {
                            assert(failures@[0].iteration == iterations);
                        }
                        let report = FuzzReport { iterations, seed: cfg.seed, failures };
                        proof {
                            assert(fuzz_traced(*cfg, ran_by(*target), report, inputs, verdicts));
                            lemma_fed_push(*cfg, loaded0, gens_h, corpora_h, inputs_h, verdicts_h, rng, corpus@, x_in, v_in);
                            gens = gens_h.push(rng);
                            corpora = corpora_h.push(corpus@);
                            assert(inputs == inputs_h.push(x_in) && verdicts == verdicts_h.push(v_in));
                            assert(fuzz_fed(*cfg, loaded@, gens, corpora, inputs, verdicts));
                            assert(fuzz_described(*cfg, ran_by(*target), loaded@, report, inputs, verdicts, gens, corpora));
                        }
                        return (report, kept);
                    }
                }
            },
        }
        proof {
            lemma_fed_push(*cfg, loaded0, gens_h, corpora_h, inputs_h, verdicts_h, rng, corpus@, x_in, v_in);
            gens = gens_h.push(rng);
            corpora = corpora_h.push(corpus@);
            assert(inputs == inputs_h.push(x_in) && verdicts == verdicts_h.push(v_in));
        }
        i = i + 1;
    }
    let report = FuzzReport { iterations: cfg.iterations, seed: cfg.seed, failures };
    proof {
        assert(fuzz_traced(*cfg, ran_by(*target), report, inputs, verdicts));
        assert(fuzz_fed(*cfg, loaded@, gens, corpora, inputs, verdicts));
        assert(fuzz_described(*cfg, ran_by(*target), loaded@, report, inputs, verdicts, gens, corpora));
    }
    (report, kept)
}

/// The parameters of typed fuzzing.
#[derive(Debug, Clone)]
pub struct TypedFuzzConfig {
    /// The byte fuzzer's parameters.
    pub inner: FuzzConfig,
    /// The size hint handed to `T::arbitrary`.
    pub size: usize,
}

/// The seed derived from a byte string: its FNV-1a hash, mixed by an
/// avalanche step; a zero result becomes a fixed non-zero constant.
pub open spec fn seed_of(bytes: Seq<u8>) -> u64 {
    let h0 = fnv(bytes);
    let h1 = h0 ^ (h0 >> 33u64);
    let h2 = ((h1 as nat * 0xff51_afd7_ed55_8ccdnat) % 0x1_0000_0000_0000_0000nat) as u64;
    let h3 = h2 ^ (h2 >> 33u64);
    if h3 == 0 {
        0x9E37_79B9_7F4A_7C15
    } else {
        h3
    }
}

/// Derives a generator seed from a byte string.
pub fn seed_from_bytes(bytes: &[u8]) -> (r: u64)
    ensures
        r == seed_of(bytes@),
        r != 0,
{
    let mut h = fnv_hash(bytes);
    h = h ^ (h >> 33);
    h = h.wrapping_mul(0xff51_afd7_ed55_8ccd);
    h = h ^ (h >> 33);
    if h == 0 {
        0x9E37_79B9_7F4A_7C15
    } else {
        h
    }
}

/// What the typed target gives on the value generated from `bytes`: `v`
/// is a verdict of `target` on a value that `T::arbitrary` generates with
/// size `size` from a generator seeded with [`seed_of`] the bytes.
pub open spec fn typed_ran<T: Arbitrary, F: Fn(&T) -> Result<(), String>>(target: F, size: usize) -> spec_fn(Seq<u8>, Result<(), String>) -> bool {
    |b: Seq<u8>, v: Result<(), String>| exists|val: T, after: Stream|
        #[trigger] T::arbitrary_from(seed_stream(seed_of(b)), after, size, val) && call_ensures(target, (&val,), v)
}

/// The typed target can fail on the value generated from `bytes`.
pub open spec fn typed_crashes<T: Arbitrary, F: Fn(&T) -> Result<(), String>>(target: F, size: usize, bytes: Seq<u8>) -> bool {
    exists|v: Result<(), String>| #[trigger] typed_ran(target, size)(bytes, v) && v is Err
}

/// Fuzzes a target that takes a typed value: each mutated byte string is
/// hashed into a seed by [`seed_from_bytes`], and the value is
/// `T::arbitrary` of a generator with that seed and the configured size.
/// The report is that of [`run_fuzz`] on the byte target that decodes its
/// input this way and runs `target` on the value.
pub fn fuzz_typed<T: Arbitrary, F: Fn(&T) -> Result<(), String>>(cfg: TypedFuzzConfig, target: F) -> (r: FuzzReport)
    requires
        forall|v: &T| call_requires(target, (v,)),
    ensures
        report_shaped(cfg.inner, r),
        forall|k: int| 0 <= k < r.failures@.len() ==> typed_crashes(target, cfg.size, #[trigger] r.failures@[k].input@),
        exists|inputs: Seq<Seq<u8>>, verdicts: Seq<Result<(), String>>, gens: Seq<XorShift64>, corpora: Seq<Seq<Vec<u8>>>|
            #[trigger] fuzz_described(cfg.inner, typed_ran(target, cfg.size), Seq::<Vec<u8>>::empty(), r, inputs, verdicts, gens, corpora),
{
    let size = cfg.size;
    let t = &target;
    let bytes_target = |bytes: &[u8]| -> (res: Result<(), String>)
        requires
            forall|v: &T| call_requires(*t, (v,)),
        ensures
            typed_ran(*t, size)(bytes@, res),
        {
            let seed = seed_from_bytes(bytes);
            let mut rng = XorShift64::seed_from_u64(seed);
            proof {
                lemma_seed_stream(seed, rng);
            }
            let value: T = T::arbitrary(&mut rng, size);
            let res = t(&value);
            proof {
                assert(T::arbitrary_from(seed_stream(seed_of(bytes@)), outputs(rng), size, value));
            }
            res
        };
    let (report, _kept) = run_fuzz(&cfg.inner, Vec::new(), &bytes_target);
    proof {
        let (inputs, verdicts, gens, corpora) = choose|inputs: Seq<Seq<u8>>, verdicts: Seq<Result<(), String>>, gens: Seq<XorShift64>, corpora: Seq<Seq<Vec<u8>>>|
            #[trigger] fuzz_described(cfg.inner, ran_by(bytes_target), Seq::<Vec<u8>>::empty(), report, inputs, verdicts, gens, corpora);
        assert forall|b: Seq<u8>, v: Result<(), String>| #[trigger] ran_by(bytes_target)(b, v) implies typed_ran(target, size)(b, v) by {
            let x = choose|x: &[u8]| x@ == b && call_ensures(bytes_target, (x,), v);
        }
        lemma_traced_weaken(cfg.inner, ran_by(bytes_target), typed_ran(target, size), report, inputs, verdicts);
        assert(fuzz_described(cfg.inner, typed_ran(target, cfg.size), Seq::<Vec<u8>>::empty(), report, inputs, verdicts, gens, corpora));
        assert forall|k: int| 0 <= k < report.failures@.len() implies typed_crashes(target, cfg.size, #[trigger] report.failures@[k].input@) by {
            assert(crashes(bytes_target, report.failures@[k].input@));
            let (x, v) = choose|x: &[u8], v: Result<(), String>| x@ == report.failures@[k].input@ && call_ensures(bytes_target, (x,), v) && v is Err;
            assert(typed_ran(target, size)(report.failures@[k].input@, v));
        }
    }
    report
}

} // verus!
