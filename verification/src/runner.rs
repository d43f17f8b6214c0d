//! The property runner: generates cases, runs the property on each, counts
//! passes, discards and skips, and on the first failure shrinks the input
//! toward a minimal counterexample.
//!
//! A run is fully determined by its seed: the generator is seeded with
//! [`Config::seed`], and each case's size grows with the number of cases
//! that passed so far.
use vstd::prelude::*;
use vstd::string::StringSliceAdditionalSpecFns;
use crate::arbitrary::{Arbitrary, draws_deterministically};
use crate::rng::{XorShift64, Stream, outputs, seed_stream, lemma_seed_stream};
use crate::text::{push_decimal, string_push_str};

verus! {

/// The message a failed `prop_assert!`-style assertion carries.
#[derive(Debug, Clone)]
pub struct PropAssertFailure {
    /// The formatted failure message.
    pub message: String,
}

/// Marks a case whose input did not meet the property's precondition.
#[derive(Debug, Clone, Copy)]
pub struct PropDiscard;

/// Marks a case that the environment could not run; counted apart from
/// discards.
#[derive(Debug, Clone)]
pub struct PropSkip {
    /// Why the case was skipped.
    pub message: String,
}

/// The result of one property case as the property states it.
#[derive(Debug)]
pub enum PropResult {
    /// The case passed.
    Pass,
    /// The case failed, with a reason.
    Fail(String),
    /// The case was discarded; it does not count toward `cases`.
    Discard,
}

/// Lets a property return `bool`, `()`, `Result<(), E>` or [`PropResult`].
pub trait IntoPropResult: Sized {
    /// `p` is the [`PropResult`] that `self` converts into. Implementations
    /// that state nothing keep this default.
    open spec fn converts_to(self, p: PropResult) -> bool {
        true
    }

    /// Converts `self` into a [`PropResult`].
    fn into_prop_result(self) -> (r: PropResult)
        ensures
            self.converts_to(r),
    ;
}

/// The failure message of a property that returned `false`.
pub open spec fn returned_false_message() -> Seq<char> {
    seq!['p', 'r', 'o', 'p', 'e', 'r', 't', 'y', ' ', 'r', 'e', 't', 'u', 'r', 'n', 'e', 'd', ' ', 'f', 'a', 'l', 's', 'e']
}

impl IntoPropResult for bool {
    open spec fn converts_to(self, p: PropResult) -> bool {
        if self {
            p is Pass
        } else {
            p matches PropResult::Fail(m) && m@ == returned_false_message()
        }
    }

    /// `true` passes; `false` fails with "property returned false".
    fn into_prop_result(self) -> (r: PropResult)
        ensures
            self ==> r is Pass,
            !self ==> (r matches PropResult::Fail(m) && m@ == returned_false_message()),
    {
        if self {
            PropResult::Pass
        } else {
            let mut m = String::new();
            proof {
                reveal_strlit("property returned false");
            }
            string_push_str(&mut m, "property returned false");
            assert(m@ == returned_false_message());
            let r = PropResult::Fail(m);
            assert(self.converts_to(r));
            r
        }
    }
}

impl IntoPropResult for () {
    open spec fn converts_to(self, p: PropResult) -> bool {
        p is Pass
    }

    /// Always passes.
    fn into_prop_result(self) -> (r: PropResult)
        ensures
            r is Pass,
    {
        PropResult::Pass
    }
}

impl IntoPropResult for PropResult {
    open spec fn converts_to(self, p: PropResult) -> bool {
        p == self
    }

    /// Itself.
    fn into_prop_result(self) -> (r: PropResult)
        ensures
            r == self,
    {
        self
    }
}

/// The `Debug` rendering of a value (`format!("{:?}")`).
#[verifier::external_body]
pub(crate) fn debug_text<T: core::fmt::Debug>(value: &T) -> (r: String) {
    format!("{value:?}")
}

impl<E: core::fmt::Debug> IntoPropResult for Result<(), E> {
    open spec fn converts_to(self, p: PropResult) -> bool {
        &&& self is Ok ==> p is Pass
        &&& self is Err ==> (p matches PropResult::Fail(m) && m@.take(13) == seq!['r', 'e', 't', 'u', 'r', 'n', 'e', 'd', ' ', 'E', 'r', 'r', '('] && m@.last() == ')')
    }

    /// `Ok(())` passes; `Err(e)` fails with "returned Err(<e in Debug form>)".
    fn into_prop_result(self) -> (r: PropResult)
        ensures
            self is Ok ==> r is Pass,
            self is Err ==> (r matches PropResult::Fail(m) && m@.take(13) == seq!['r', 'e', 't', 'u', 'r', 'n', 'e', 'd', ' ', 'E', 'r', 'r', '('] && m@.last() == ')'),
    {
        match self {
            Ok(()) => PropResult::Pass,
            Err(e) => {
                let d = debug_text(&e);
                let mut m = String::new();
                proof {
                    reveal_strlit("returned Err(");
                    reveal_strlit(")");
                }
                string_push_str(&mut m, "returned Err(");
                string_push_str(&mut m, d.as_str());
                string_push_str(&mut m, ")");
                assert(m@.take(13) == seq!['r', 'e', 't', 'u', 'r', 'n', 'e', 'd', ' ', 'E', 'r', 'r', '(']);
                PropResult::Fail(m)
            },
        }
    }
}

/// How the shrinker walks the candidates.
#[derive(Debug, Clone, Copy, PartialEq, Eq, Structural)]
pub enum ShrinkMode {
    /// Accept the first candidate that still fails.
    Greedy,
    /// Try every candidate (within the budget) and accept the failing one
    /// whose `Debug` rendering is shortest.
    Exhaustive,
}

/// The parameters of a run.
#[derive(Debug, Clone)]
pub struct Config {
    /// How many passing cases to run.
    pub cases: usize,
    /// The seed of the generator.
    pub seed: u64,
    /// How many shrink candidates may be tried after a failure.
    pub max_shrinks: usize,
    /// The largest size hint handed to the generators.
    pub max_size: usize,
    /// How many discarded cases are tolerated before the run aborts.
    pub max_discards: usize,
    /// How many skipped cases are tolerated before the run aborts.
    pub max_skips: usize,
    /// Whether the panic hook is silenced while the property runs.
    pub silence_panic_hook: bool,
    /// Whether failing seeds are persisted and replayed first next time.
    pub regression_replay: bool,
    /// How failures are shrunk.
    pub shrink_mode: ShrinkMode,
}

/// What one run of the property on one case gave.
#[derive(Debug)]
pub enum CaseOutcome {
    /// The case passed.
    Pass,
    /// The case failed, with a reason.
    Fail(String),
    /// The input did not meet the precondition.
    Discard,
    /// The environment could not run the case.
    Skip(String),
}

/// One case's result and the classification labels it recorded.
#[derive(Debug)]
pub struct CaseReport {
    /// How the case ended.
    pub outcome: CaseOutcome,
    /// The labels recorded while it ran.
    pub labels: Vec<String>,
}

/// The case report of a property result, with no labels.
pub open spec fn report_of(p: PropResult) -> CaseOutcome {
    match p {
        PropResult::Pass => CaseOutcome::Pass,
        PropResult::Fail(m) => CaseOutcome::Fail(m),
        PropResult::Discard => CaseOutcome::Discard,
    }
}

/// Converts a property result into a case outcome.
pub fn case_outcome_of(p: PropResult) -> (r: CaseOutcome)
    ensures
        r == report_of(p),
{
    match p {
        PropResult::Pass => CaseOutcome::Pass,
        PropResult::Fail(m) => CaseOutcome::Fail(m),
        PropResult::Discard => CaseOutcome::Discard,
    }
}

/// Lexicographic order of character sequences by code point (the order of
/// `String`'s `Ord`).
pub open spec fn chars_lt(a: Seq<char>, b: Seq<char>) -> bool
    decreases a.len(),
{
    if a.len() == 0 {
        b.len() > 0
    } else if b.len() == 0 {
        false
    } else if a[0] != b[0] {
        (a[0] as u32) < (b[0] as u32)
    } else {
        chars_lt(a.drop_first(), b.drop_first())
    }
}

/// Of two different sequences exactly one precedes the other; none
/// precedes itself.
pub proof fn lemma_chars_lt_total(a: Seq<char>, b: Seq<char>)
    ensures
        !chars_lt(a, a),
        a != b ==> (chars_lt(a, b) || chars_lt(b, a)),
        !(chars_lt(a, b) && chars_lt(b, a)),
    decreases a.len(),
{
    if a.len() == 0 {
        if b.len() == 0 {
            assert(a == b);
        }
    } else if b.len() == 0 {
        lemma_chars_lt_total(a.drop_first(), a.drop_first());
    } else {
        lemma_chars_lt_total(a.drop_first(), b.drop_first());
        lemma_chars_lt_total(a.drop_first(), a.drop_first());
        vstd::utf8::char_is_scalar(a[0]);
        vstd::utf8::char_is_scalar(b[0]);
        if a[0] == b[0] {
            if a != b {
                assert(a.drop_first() != b.drop_first()) by {
                    if a.drop_first() == b.drop_first() {
                        assert(a =~= seq![a[0]] + a.drop_first());
                        assert(b =~= seq![b[0]] + b.drop_first());
                    }
                }
            }
        } else {
            vstd::utf8::char_u32_cast(a[0], a[0] as u32);
            vstd::utf8::char_u32_cast(b[0], b[0] as u32);
            assert(a[0] as u32 != b[0] as u32);
        }
    }
}

/// The order is transitive.
pub proof fn lemma_chars_lt_trans(a: Seq<char>, b: Seq<char>, c: Seq<char>)
    requires
        chars_lt(a, b),
        chars_lt(b, c),
    ensures
        chars_lt(a, c),
    decreases a.len(),
{
    if a.len() > 0 && b.len() > 0 && c.len() > 0 {
        if a[0] == b[0] && b[0] == c[0] {
            lemma_chars_lt_trans(a.drop_first(), b.drop_first(), c.drop_first());
        }
    }
}

/// `a` comes before `b`.
pub fn str_lt(a: &String, b: &String) -> (r: bool)
    ensures
        r == chars_lt(a@, b@),
{
    let x = crate::text::chars_of(a);
    let y = crate::text::chars_of(b);
    let mut i: usize = 0;
    assert(a@.skip(0) == a@ && b@.skip(0) == b@);
    while i < x.len() && i < y.len()
        invariant
            i <= x@.len(),
            i <= y@.len(),
            x@ == a@,
            y@ == b@,
            x@.take(i as int) == y@.take(i as int),
            chars_lt(a@, b@) == chars_lt(a@.skip(i as int), b@.skip(i as int)),
        decreases x@.len() - i,
    {
        if x[i] != y[i] {
            proof {
                vstd::utf8::char_is_scalar(x@[i as int]);
                vstd::utf8::char_is_scalar(y@[i as int]);
            }
            return (x[i] as u32) < (y[i] as u32);
        }
        proof {
            assert(a@.skip(i as int).drop_first() == a@.skip(i + 1));
            assert(b@.skip(i as int).drop_first() == b@.skip(i + 1));
            assert(x@.take(i + 1) == x@.take(i as int).push(x@[i as int]));
            assert(y@.take(i + 1) == y@.take(i as int).push(y@[i as int]));
        }
        i = i + 1;
    }
    proof {
        if i == x@.len() {
            assert(a@.skip(i as int).len() == 0);
        } else {
            assert(b@.skip(i as int).len() == 0);
        }
    }
    i < y.len()
}

/// The count recorded for `label` in `entries` (summed over the entries
/// that carry it; labels are distinct, so at most one does).
pub open spec fn counted(entries: Seq<(String, usize)>, label: Seq<char>) -> nat
    decreases entries.len(),
{
    if entries.len() == 0 {
        0
    } else {
        (if entries[0].0@ == label { entries[0].1 as nat } else { 0 }) + counted(entries.drop_first(), label)
    }
}

/// What one entry contributes to the count of `label`.
pub open spec fn contribution(x: (String, usize), label: Seq<char>) -> nat {
    if x.0@ == label { x.1 as nat } else { 0 }
}

/// Inserting an entry adds its contribution.
proof fn lemma_counted_insert(e: Seq<(String, usize)>, i: int, x: (String, usize), l: Seq<char>)
    requires
        0 <= i <= e.len(),
    ensures
        counted(e.insert(i, x), l) == counted(e, l) + contribution(x, l),
    decreases e.len(),
{
    if i == 0 {
        assert(e.insert(0, x).drop_first() == e);
    } else {
        assert(e.insert(i, x).drop_first() == e.drop_first().insert(i - 1, x));
        lemma_counted_insert(e.drop_first(), i - 1, x, l);
    }
}

/// Replacing an entry swaps its contribution.
proof fn lemma_counted_update(e: Seq<(String, usize)>, i: int, x: (String, usize), l: Seq<char>)
    requires
        0 <= i < e.len(),
    ensures
        counted(e.update(i, x), l) + contribution(e[i], l) == counted(e, l) + contribution(x, l),
    decreases e.len(),
{
    if i == 0 {
        assert(e.update(0, x).drop_first() == e.drop_first());
    } else {
        assert(e.update(i, x).drop_first() == e.drop_first().update(i - 1, x));
        lemma_counted_update(e.drop_first(), i - 1, x, l);
    }
}

/// An entry's count is at most the total of the entries counting its
/// label.
proof fn lemma_counted_at(e: Seq<(String, usize)>, i: int)
    requires
        0 <= i < e.len(),
    ensures
        e[i].1 <= counted(e, e[i].0@),
    decreases e.len(),
{
    if i > 0 {
        lemma_counted_at(e.drop_first(), i - 1);
    }
}

/// Entries strictly sorted by label.
pub open spec fn sorted_labels(e: Seq<(String, usize)>) -> bool {
    forall|i: int, j: int| 0 <= i < j < e.len() ==> chars_lt(#[trigger] e[i].0@, #[trigger] e[j].0@)
}

/// `labels` holds `l`.
pub open spec fn has_label(labels: Seq<String>, l: Seq<char>) -> bool {
    exists|i: int| 0 <= i < labels.len() && #[trigger] labels[i]@ == l
}

/// How many cases recorded each classification label during a run.
#[derive(Debug)]
pub struct Classifications {
    counts: Vec<(String, usize)>,
    total: usize,
}

/// Records `label` among the labels of the current case: appended the first
/// time, ignored when the case already holds it, so that a case counts
/// under a label at most once.
pub fn add_label(labels: &mut Vec<String>, label: String)
    ensures
        (exists|j: int| 0 <= j < old(labels)@.len() && #[trigger] old(labels)@[j]@ == label@) ==> final(labels)@ == old(labels)@,
        !(exists|j: int| 0 <= j < old(labels)@.len() && #[trigger] old(labels)@[j]@ == label@) ==> final(labels)@ == old(labels)@.push(label),
{
    let mut i: usize = 0;
    while i < labels.len()
        invariant
            i <= labels@.len(),
            forall|j: int| 0 <= j < i ==> #[trigger] labels@[j]@ != label@,
        decreases labels@.len() - i,
    {
        if labels[i] == label {
            return;
        }
        i = i + 1;
    }
    labels.push(label);
}

impl Classifications {
    /// The entries, sorted by label.
    pub closed spec fn spec_counts(&self) -> Seq<(String, usize)> {
        self.counts@
    }

    /// The number of cases observed.
    pub closed spec fn spec_total(&self) -> usize {
        self.total
    }

    /// Labels are sorted and distinct, and no label was counted more often
    /// than there were cases.
    #[verifier::type_invariant]
    closed spec fn well_formed(&self) -> bool {
        &&& sorted_labels(self.counts@)
        &&& forall|l: Seq<char>| #[trigger] counted(self.counts@, l) <= self.total
    }

    /// No case observed and nothing counted.
    pub fn new() -> (r: Self)
        ensures
            r.spec_counts().len() == 0,
            r.spec_total() == 0,
    {
        Classifications { counts: Vec::new(), total: 0 }
    }

    /// The label counts, sorted by label.
    pub fn counts(&self) -> (r: &Vec<(String, usize)>)
        ensures
            r@ == self.spec_counts(),
            sorted_labels(r@),
    {
        proof {
            use_type_invariant(self);
        }
        &self.counts
    }

    /// The number of cases observed, labelled or not.
    pub fn total(&self) -> (r: usize)
        ensures
            r == self.spec_total(),
            forall|l: Seq<char>| #[trigger] counted(self.spec_counts(), l) <= r,
    {
        proof {
            use_type_invariant(self);
        }
        self.total
    }

    /// No label was ever recorded.
    pub fn is_empty(&self) -> (r: bool)
        ensures
            r == (self.spec_counts().len() == 0),
    {
        self.counts.len() == 0
    }

    /// Counts one more case, and one more for each distinct label it
    /// recorded.
    pub fn merge_case(&mut self, labels: Vec<String>)
        requires
            old(self).spec_total() < usize::MAX,
        ensures
            final(self).spec_total() == old(self).spec_total() + 1,
            forall|l: Seq<char>|
                #[trigger] counted(final(self).spec_counts(), l) == counted(old(self).spec_counts(), l) + (if has_label(
                    labels@,
                    l,
                ) {
                    1nat
                } else {
                    0nat
                }),
    {
        proof {
            use_type_invariant(&*self);
        }
        let ghost start = self.counts@;
        let mut counts = Vec::new();
        core::mem::swap(&mut counts, &mut self.counts);
        let total = self.total + 1;
        let mut j: usize = 0;
        while j < labels.len()
            invariant
                j <= labels@.len(),
                total < usize::MAX || total == usize::MAX,
                sorted_labels(counts@),
                forall|l: Seq<char>| #[trigger] counted(counts@, l) == counted(start, l) + (if has_label(labels@.take(j as int), l) { 1nat } else { 0nat }),
                forall|l: Seq<char>| #[trigger] counted(start, l) < total,
            decreases labels@.len() - j,
        {
            let label = &labels[j];
            let mut seen = false;
            let mut p: usize = 0;
            while p < j
                invariant
                    p <= j,
                    j < labels@.len(),
                    *label == labels@[j as int],
                    seen == has_label(labels@.take(p as int), labels@[j as int]@),
                decreases j - p,
            {
                proof {
                    let lj = labels@[j as int]@;
                    assert(labels@.take(p + 1) == labels@.take(p as int).push(labels@[p as int]));
                    if has_label(labels@.take(p + 1), lj) && !has_label(labels@.take(p as int), lj) {
                        let w = choose|w: int| 0 <= w < p + 1 && #[trigger] labels@.take(p + 1)[w]@ == lj;
                        if w < p {
                            assert(labels@.take(p as int)[w] == labels@.take(p + 1)[w]);
                        }
                    }
                    if has_label(labels@.take(p as int), lj) {
                        let w = choose|w: int| 0 <= w < p && #[trigger] labels@.take(p as int)[w]@ == lj;
                        assert(labels@.take(p + 1)[w] == labels@.take(p as int)[w]);
                    }
                    if labels@[p as int]@ == lj {
                        assert(labels@.take(p + 1)[p as int] == labels@[p as int]);
                    }
                    assert(has_label(labels@.take(p + 1), lj) == (has_label(labels@.take(p as int), lj) || labels@[p as int]@ == lj));
                }
                if labels[p] == *label {
                    seen = true;
                }
                p = p + 1;
            }
            proof {
                assert(labels@.take(j + 1) == labels@.take(j as int).push(labels@[j as int]));
                assert forall|l: Seq<char>| has_label(labels@.take(j + 1), l) == (has_label(labels@.take(j as int), l) || l == labels@[j as int]@) by {
                    if has_label(labels@.take(j + 1), l) {
                        let w = choose|w: int| 0 <= w < j + 1 && #[trigger] labels@.take(j + 1)[w]@ == l;
                        if w < j {
                            assert(labels@.take(j as int)[w] == labels@.take(j + 1)[w]);
                        }
                    }
                    if has_label(labels@.take(j as int), l) {
                        let w = choose|w: int| 0 <= w < j && #[trigger] labels@.take(j as int)[w]@ == l;
                        assert(labels@.take(j + 1)[w] == labels@.take(j as int)[w]);
                    }
                    if l == labels@[j as int]@ {
                        assert(labels@.take(j + 1)[j as int] == labels@[j as int]);
                    }
                }
            }
            if !seen {
                count_label(&mut counts, label);
            }
            j = j + 1;
        }
        proof {
            assert(labels@.take(labels@.len() as int) == labels@);
            assert forall|l: Seq<char>| #[trigger] counted(counts@, l) <= total by {
                assert(counted(start, l) < total);
            }
        }
        *self = Classifications { counts, total };
    }
}

impl Clone for Classifications {
    fn clone(&self) -> (r: Self)
        ensures
            r.spec_counts() == self.spec_counts(),
            r.spec_total() == self.spec_total(),
    {
        proof {
            use_type_invariant(self);
        }
        let mut counts: Vec<(String, usize)> = Vec::new();
        let mut i: usize = 0;
        while i < self.counts.len()
            invariant
                i <= self.counts@.len(),
                counts@ == self.counts@.take(i as int),
            decreases self.counts@.len() - i,
        {
            let e = &self.counts[i];
            counts.push((e.0.clone(), e.1));
            i = i + 1;
            assert(counts@ == self.counts@.take(i as int));
        }
        assert(self.counts@.take(self.counts@.len() as int) == self.counts@);
        Classifications { counts, total: self.total }
    }
}

impl Default for Classifications {
    /// No case observed and nothing counted.
    fn default() -> (r: Self)
        ensures
            r.spec_counts().len() == 0,
            r.spec_total() == 0,
    {
        Classifications::new()
    }
}

/// Adds one to the count of `label`, inserting it in label order when new.
fn count_label(counts: &mut Vec<(String, usize)>, label: &String)
    requires
        sorted_labels(old(counts)@),
        counted(old(counts)@, label@) < usize::MAX,
    ensures
        sorted_labels(final(counts)@),
        forall|l: Seq<char>| #[trigger] counted(final(counts)@, l) == counted(old(counts)@, l) + (if l == label@ { 1nat } else { 0nat }),
{
    let ghost start = counts@;
    let mut i: usize = 0;
    while i < counts.len()
        invariant
            i <= counts@.len(),
            counts@ == start,
            start == old(counts)@,
            sorted_labels(start),
            counted(start, label@) < usize::MAX,
            forall|k: int| 0 <= k < i ==> chars_lt(#[trigger] start[k].0@, label@),
        decreases counts@.len() - i,
    {
        if counts[i].0 == *label {
            proof {
                lemma_counted_at(start, i as int);
            }
            let c = counts[i].1 + 1;
            let key = counts[i].0.clone();
            let ghost x = (key, c);
            counts.set(i, (key, c));
            proof {
                assert forall|l: Seq<char>| #[trigger] counted(counts@, l) == counted(start, l) + (if l == label@ { 1nat } else { 0nat }) by {
                    lemma_counted_update(start, i as int, x, l);
                }
                assert forall|a: int, b: int| 0 <= a < b < counts@.len() implies chars_lt(#[trigger] counts@[a].0@, #[trigger] counts@[b].0@) by {
                    assert(start[a].0@ == counts@[a].0@ && start[b].0@ == counts@[b].0@);
                }
            }
            return;
        }
        if str_lt(label, &counts[i].0) {
            let key = label.clone();
            let ghost x = (key, 1usize);
            counts.insert(i, (key, 1));
            proof {
                assert forall|l: Seq<char>| #[trigger] counted(counts@, l) == counted(start, l) + (if l == label@ { 1nat } else { 0nat }) by {
                    lemma_counted_insert(start, i as int, x, l);
                }
                assert forall|a: int, b: int| 0 <= a < b < counts@.len() implies chars_lt(#[trigger] counts@[a].0@, #[trigger] counts@[b].0@) by {
                    if b < i {
                        assert(counts@[a] == start[a] && counts@[b] == start[b]);
                    } else if b == i {
                        assert(counts@[a] == start[a]);
                    } else if a == i {
                        assert(counts@[b] == start[b - 1]);
                        if b - 1 > i {
                            lemma_chars_lt_trans(label@, start[i as int].0@, start[b - 1].0@);
                        }
                    } else if a < i {
                        assert(counts@[a] == start[a] && counts@[b] == start[b - 1]);
                    } else {
                        assert(counts@[a] == start[a - 1] && counts@[b] == start[b - 1]);
                    }
                }
            }
            return;
        }
        proof {
            lemma_chars_lt_total(label@, counts@[i as int].0@);
        }
        i = i + 1;
    }
    let key = label.clone();
    let ghost x = (key, 1usize);
    counts.push((key, 1));
    proof {
        assert(counts@ == start.insert(start.len() as int, x));
        assert forall|l: Seq<char>| #[trigger] counted(counts@, l) == counted(start, l) + (if l == label@ { 1nat } else { 0nat }) by {
            lemma_counted_insert(start, start.len() as int, x, l);
        }
    }
}

/// The result of a property run.
#[derive(Debug)]
pub enum Outcome<A> {
    /// Every required case passed (possibly after discards and skips).
    Passed {
        /// The cases that ran to completion.
        cases: usize,
        /// The cases discarded for not meeting the precondition.
        discarded: usize,
        /// The cases skipped by the environment.
        skipped: usize,
        /// The labels recorded over the run.
        classifications: Classifications,
    },
    /// A case failed.
    Failed {
        /// The first generated value that failed.
        original: A,
        /// The counterexample after shrinking.
        shrunk: A,
        /// Why the case failed.
        message: String,
        /// The seed that reproduces the failure.
        seed: u64,
        /// The 1-based index of the failing case among the kept ones (0 for
        /// a replayed regression seed).
        attempt: usize,
        /// The cases discarded before the failure.
        discarded: usize,
        /// The cases skipped before the failure.
        skipped: usize,
        /// The labels recorded over the run.
        classifications: Classifications,
    },
    /// The run stopped early: too many discards or skips.
    Aborted {
        /// Why the run stopped.
        reason: String,
        /// The cases that passed before it stopped.
        cases: usize,
        /// The cases discarded.
        discarded: usize,
        /// The cases skipped.
        skipped: usize,
        /// The seed of the run.
        seed: u64,
        /// The labels recorded over the run.
        classifications: Classifications,
    },
}

impl<A> Outcome<A> {
    /// The run completed without a failure.
    pub fn is_passed(&self) -> (r: bool)
        ensures
            r == (self is Passed),
    {
        match self {
            Outcome::Passed { .. } => true,
            _ => false,
        }
    }

    /// The run found a failing case.
    pub fn is_failed(&self) -> (r: bool)
        ensures
            r == (self is Failed),
    {
        match self {
            Outcome::Failed { .. } => true,
            _ => false,
        }
    }

    /// The run stopped early.
    pub fn is_aborted(&self) -> (r: bool)
        ensures
            r == (self is Aborted),
    {
        match self {
            Outcome::Aborted { .. } => true,
            _ => false,
        }
    }

    /// The failure message of a failed run.
    pub fn failure_message(&self) -> (r: Option<&str>)
        ensures
            match self {
                Outcome::Failed { message, .. } => r matches Some(m) && m@ == message@,
                _ => r is None,
            },
    {
        match self {
            Outcome::Failed { message, .. } => Some(message.as_str()),
            _ => None,
        }
    }

    /// The shrunk counterexample of a failed run.
    pub fn shrunk(&self) -> (r: Option<&A>)
        ensures
            match self {
                Outcome::Failed { shrunk, .. } => r == Some(shrunk),
                _ => r is None,
            },
    {
        match self {
            Outcome::Failed { shrunk, .. } => Some(shrunk),
            _ => None,
        }
    }

    /// The first failing input of a failed run, before shrinking.
    pub fn original(&self) -> (r: Option<&A>)
        ensures
            match self {
                Outcome::Failed { original, .. } => r == Some(original),
                _ => r is None,
            },
    {
        match self {
            Outcome::Failed { original, .. } => Some(original),
            _ => None,
        }
    }

    /// The cases that ran the property to completion; for a failed run, the
    /// failing case's index minus one.
    pub fn cases(&self) -> (r: usize)
        ensures
            match self {
                Outcome::Passed { cases, .. } => r == cases,
                Outcome::Failed { attempt, .. } => r == (if attempt > 0 { attempt - 1 } else { 0 }),
                Outcome::Aborted { cases, .. } => r == cases,
            },
    {
        match self {
            Outcome::Passed { cases, .. } => *cases,
            Outcome::Failed { attempt, .. } => attempt.saturating_sub(1),
            Outcome::Aborted { cases, .. } => *cases,
        }
    }

    /// The discarded cases.
    pub fn discarded(&self) -> (r: usize)
        ensures
            match self {
                Outcome::Passed { discarded, .. } => r == discarded,
                Outcome::Failed { discarded, .. } => r == discarded,
                Outcome::Aborted { discarded, .. } => r == discarded,
            },
    {
        match self {
            Outcome::Passed { discarded, .. } => *discarded,
            Outcome::Failed { discarded, .. } => *discarded,
            Outcome::Aborted { discarded, .. } => *discarded,
        }
    }

    /// The skipped cases.
    pub fn skipped(&self) -> (r: usize)
        ensures
            match self {
                Outcome::Passed { skipped, .. } => r == skipped,
                Outcome::Failed { skipped, .. } => r == skipped,
                Outcome::Aborted { skipped, .. } => r == skipped,
            },
    {
        match self {
            Outcome::Passed { skipped, .. } => *skipped,
            Outcome::Failed { skipped, .. } => *skipped,
            Outcome::Aborted { skipped, .. } => *skipped,
        }
    }

    /// The seed of a failed or aborted run.
    pub fn seed(&self) -> (r: Option<u64>)
        ensures
            match self {
                Outcome::Passed { .. } => r is None,
                Outcome::Failed { seed, .. } => r == Some(*seed),
                Outcome::Aborted { seed, .. } => r == Some(*seed),
            },
    {
        match self {
            Outcome::Failed { seed, .. } => Some(*seed),
            Outcome::Aborted { seed, .. } => Some(*seed),
            Outcome::Passed { .. } => None,
        }
    }

    /// The labels recorded over the run.
    pub fn classifications(&self) -> (r: &Classifications)
        ensures
            match self {
                Outcome::Passed { classifications, .. } => r == classifications,
                Outcome::Failed { classifications, .. } => r == classifications,
                Outcome::Aborted { classifications, .. } => r == classifications,
            },
    {
        match self {
            Outcome::Passed { classifications, .. } => classifications,
            Outcome::Failed { classifications, .. } => classifications,
            Outcome::Aborted { classifications, .. } => classifications,
        }
    }
}

/// `b` is one of the shrink candidates of `a`.
pub open spec fn shrinks_into<A: Arbitrary>(a: A, b: A) -> bool {
    exists|cs: Seq<A>| #[trigger] a.shrinks_to(cs) && cs.contains(b)
}

/// `chain` walks from its first value to its last, each value one of the
/// shrink candidates of the value before it.
pub open spec fn shrink_chain<A: Arbitrary>(chain: Seq<A>) -> bool {
    &&& chain.len() >= 1
    &&& forall|i: int| 0 <= i < chain.len() - 1 ==> shrinks_into(#[trigger] chain[i], chain[i + 1])
}

/// Running the property on `a` can fail.
pub open spec fn fails<A, F: Fn(&A) -> CaseReport>(prop: F, a: A) -> bool {
    exists|r: CaseReport| call_ensures(prop, (&a,), r) && r.outcome is Fail
}

/// The property was run on `a` and did not report a failure.
pub open spec fn passed_once<A, F: Fn(&A) -> CaseReport>(prop: F, a: A) -> bool {
    exists|c: CaseReport| call_ensures(prop, (&a,), c) && !(c.outcome is Fail)
}

/// `b` is the first candidate, in the list of `a`'s shrink candidates,
/// on which the property reported a failure: it ran without a failure on
/// every candidate before it.
pub open spec fn first_failing_step<A: Arbitrary, F: Fn(&A) -> CaseReport>(prop: F, a: A, b: A) -> bool {
    exists|cs: Seq<A>, j: int|
        #![trigger a.shrinks_to(cs), cs[j]]
        a.shrinks_to(cs) && 0 <= j < cs.len() && cs[j] == b && fails(prop, b)
            && forall|k: int| 0 <= k < j ==> passed_once(prop, #[trigger] cs[k])
}

/// Each step of `chain` takes the first failing candidate.
pub open spec fn greedy_path<A: Arbitrary, F: Fn(&A) -> CaseReport>(prop: F, chain: Seq<A>) -> bool {
    forall|i: int| 0 <= i < chain.len() - 1 ==> first_failing_step(prop, #[trigger] chain[i], chain[i + 1])
}

/// The property was run on `a`.
pub open spec fn ran_once<A, F: Fn(&A) -> CaseReport>(prop: F, a: A) -> bool {
    exists|c: CaseReport| call_ensures(prop, (&a,), c)
}

/// `b` is a candidate of `a` on which the property reported a failure,
/// taken after the property ran on every candidate of `a`.
pub open spec fn surveyed_step<A: Arbitrary, F: Fn(&A) -> CaseReport>(prop: F, a: A, b: A) -> bool {
    exists|cs: Seq<A>|
        #![trigger a.shrinks_to(cs)]
        a.shrinks_to(cs) && cs.contains(b) && fails(prop, b)
            && forall|k: int| 0 <= k < cs.len() ==> ran_once(prop, #[trigger] cs[k])
}

/// `n` is the length, in UTF-8 bytes (as a `usize`), of a `Debug`
/// rendering of `a` that [`debug_text`] gave.
pub closed spec fn rendered_len<A: core::fmt::Debug>(a: A, n: nat) -> bool {
    exists|t: String| call_ensures(debug_text::<A>, (&a,), t) && (vstd::utf8::encode_utf8(t@).len() as usize) as nat == n
}

/// Among the candidates `cs`, of which the first `k` were run, candidate
/// `c` is the one exhaustive shrinking keeps: each run candidate either
/// passed or is marked in `seen`, having failed with a rendering of length
/// `lens[q]`; `c` is marked; every marked candidate before `c` rendered
/// strictly longer, and every marked one after it no shorter.
pub open spec fn shortest_among<A: core::fmt::Debug, F: Fn(&A) -> CaseReport>(
    prop: F,
    cs: Seq<A>,
    c: int,
    k: int,
    lens: Seq<nat>,
    seen: Seq<bool>,
) -> bool {
    &&& 0 <= c < k <= cs.len()
    &&& lens.len() == cs.len()
    &&& seen.len() == cs.len()
    &&& seen[c]
    &&& forall|q: int| 0 <= q < k ==> #[trigger] seen[q] || passed_once(prop, cs[q])
    &&& forall|q: int| 0 <= q < k && #[trigger] seen[q] ==> fails(prop, cs[q]) && rendered_len(cs[q], lens[q])
    &&& forall|q: int| 0 <= q < c && #[trigger] seen[q] ==> lens[q] > lens[c]
    &&& forall|q: int| c < q < k && #[trigger] seen[q] ==> lens[q] >= lens[c]
}

/// `b` is the candidate of `a` that exhaustive shrinking takes: of the
/// candidates of `a` that were run and failed, the one with the shortest
/// `Debug` rendering, the earliest of equally short ones.
pub open spec fn shortest_failing_step<A: Arbitrary + core::fmt::Debug, F: Fn(&A) -> CaseReport>(prop: F, a: A, b: A) -> bool {
    exists|cs: Seq<A>, c: int, k: int, lens: Seq<nat>, seen: Seq<bool>|
        #![trigger a.shrinks_to(cs), shortest_among(prop, cs, c, k, lens, seen)]
        a.shrinks_to(cs) && shortest_among(prop, cs, c, k, lens, seen) && cs[c] == b
}

/// Every step of `chain` takes the shortest failing candidate.
pub open spec fn shortest_path<A: Arbitrary + core::fmt::Debug, F: Fn(&A) -> CaseReport>(prop: F, chain: Seq<A>) -> bool {
    forall|i: int| 0 <= i < chain.len() - 1 ==> shortest_failing_step(prop, #[trigger] chain[i], chain[i + 1])
}

/// Exhaustive shrinking takes the shortest failing candidate: the step's
/// value failed, and every other candidate that was run and did not pass
/// failed with a `Debug` rendering at least as long, strictly longer when
/// it comes first.
pub proof fn law_exhaustive_step_is_shortest<A: Arbitrary + core::fmt::Debug, F: Fn(&A) -> CaseReport>(prop: F, a: A, b: A)
    requires
        shortest_failing_step(prop, a, b),
    ensures
        fails(prop, b),
        exists|cs: Seq<A>, c: int, k: int, lens: Seq<nat>|
            #![trigger a.shrinks_to(cs), lens[c], cs.take(k)]
            {
                &&& a.shrinks_to(cs)
                &&& 0 <= c < k <= cs.len()
                &&& cs[c] == b
                &&& rendered_len(b, lens[c])
                &&& forall|q: int|
                    0 <= q < k && q != c && !passed_once(prop, #[trigger] cs[q]) ==> fails(prop, cs[q])
                        && rendered_len(cs[q], lens[q]) && lens[q] >= lens[c] && (q < c ==> lens[q] > lens[c])
            },
{
    let (cs, c, k, lens, seen) = choose|cs: Seq<A>, c: int, k: int, lens: Seq<nat>, seen: Seq<bool>|
        a.shrinks_to(cs) && shortest_among(prop, cs, c, k, lens, seen) && cs[c] == b;
    assert(seen[c]);
    assert forall|q: int|
        0 <= q < k && q != c && !passed_once(prop, #[trigger] cs[q]) implies fails(prop, cs[q])
            && rendered_len(cs[q], lens[q]) && lens[q] >= lens[c] && (q < c ==> lens[q] > lens[c]) by {
        assert(seen[q]);
    }
    assert(cs.take(k).len() == k);
}

/// Every step of `chain` but the last takes a failing candidate after
/// trying all of them (the last may have been cut short by the budget).
pub open spec fn surveyed_path<A: Arbitrary, F: Fn(&A) -> CaseReport>(prop: F, chain: Seq<A>) -> bool {
    forall|i: int| 0 <= i < chain.len() - 2 ==> surveyed_step(prop, #[trigger] chain[i], chain[i + 1])
}

/// The property was run `max` times, on the values of `runs`.
pub open spec fn spent_on<A, F: Fn(&A) -> CaseReport>(prop: F, max: usize, runs: Seq<A>) -> bool {
    runs.len() == max && forall|i: int| 0 <= i < runs.len() ==> ran_once(prop, #[trigger] runs[i])
}

/// The property ran without a failure on every shrink candidate of `r`.
pub open spec fn locally_minimal<A: Arbitrary, F: Fn(&A) -> CaseReport>(prop: F, r: A) -> bool {
    exists|cs: Seq<A>|
        #![trigger r.shrinks_to(cs)]
        r.shrinks_to(cs) && forall|k: int| 0 <= k < cs.len() ==> passed_once(prop, #[trigger] cs[k])
}

/// `shrunk` is what [`shrink_failure_with_mode`] gives, under the shrink
/// mode and budget of `cfg`, for a clone of `original`: the end of a chain
/// of shrink steps taken as the mode says, at which either no candidate
/// fails or the budget of `cfg.max_shrinks` runs of the property is spent.
pub open spec fn shrunk_by<A: Arbitrary + Clone, F: Fn(&A) -> CaseReport>(prop: F, cfg: Config, original: A, shrunk: A) -> bool {
    &&& exists|chain: Seq<A>|
        {
            &&& shrink_chain(chain)
            &&& cloned(original, chain[0])
            &&& chain.last() == shrunk
            &&& cfg.shrink_mode == ShrinkMode::Greedy ==> greedy_path(prop, chain)
            &&& cfg.shrink_mode == ShrinkMode::Exhaustive ==> surveyed_path(prop, chain)
        }
    &&& locally_minimal(prop, shrunk) || exists|runs: Seq<A>| #[trigger] spent_on(prop, cfg.max_shrinks, runs)
}

/// Walks shrink candidates from a failing `initial` and returns the
/// smallest failing value it reached within `max` tries of the property.
/// In greedy mode the first failing candidate is taken at each step; in
/// exhaustive mode every candidate (within the budget) is tried and the
/// failing one with the shortest `Debug` rendering is taken.
#[verifier::spinoff_prover]
#[verifier::rlimit(60)]
pub fn shrink_failure_with_mode<A: Arbitrary + Clone + core::fmt::Debug, F: Fn(&A) -> CaseReport>(
    initial: A,
    prop: &F,
    max: usize,
    mode: ShrinkMode,
) -> (r: A)
    requires
        forall|a: &A| call_requires(*prop, (a,)),
    ensures
        r == initial || fails(*prop, r),
        exists|chain: Seq<A>|
            shrink_chain(chain) && chain[0] == initial && chain.last() == r
                && (mode == ShrinkMode::Greedy ==> greedy_path(*prop, chain))
                && (mode == ShrinkMode::Exhaustive ==> surveyed_path(*prop, chain))
                && (mode == ShrinkMode::Exhaustive ==> shortest_path(*prop, chain)),
        locally_minimal(*prop, r) || exists|runs: Seq<A>| #[trigger] spent_on(*prop, max, runs),
{
    let render = debug_text::<A>;
    let mut current = initial;
    let ghost mut chain: Seq<A> = seq![initial];
    let mut attempts: usize = 0;
    let ghost mut last_partial: bool = false;
    let ghost mut runs: Seq<A> = seq![];
    loop
        invariant
            forall|a: &A| call_requires(*prop, (a,)),
            attempts <= max,
            runs.len() == attempts,
            forall|i: int| 0 <= i < runs.len() ==> ran_once(*prop, #[trigger] runs[i]),
            current == initial || fails(*prop, current),
            shrink_chain(chain),
            chain[0] == initial,
            chain.last() == current,
            mode == ShrinkMode::Greedy ==> greedy_path(*prop, chain),
            mode == ShrinkMode::Exhaustive ==> surveyed_path(*prop, chain),
            mode == ShrinkMode::Exhaustive ==> shortest_path(*prop, chain),
            mode == ShrinkMode::Exhaustive && chain.len() >= 2 ==> (last_partial || surveyed_step(*prop, chain[chain.len() - 2], chain.last())),
            last_partial ==> attempts >= max,
        decreases max - attempts,
    {
        let mut candidates = current.shrink();
        let ghost listed = candidates@;
        if candidates.len() == 0 {
            proof {
                assert(current.shrinks_to(listed));
            }
            return current;
        }
        let mut chosen: Option<usize> = None;
        let mut best_len: usize = 0;
        let mut k: usize = 0;
        let start_attempts = attempts;
        let ghost mut hit: bool = false;
        let ghost mut lens: Seq<nat> = Seq::new(listed.len(), |q: int| 0nat);
        let ghost mut seen: Seq<bool> = Seq::new(listed.len(), |q: int| false);
        while k < candidates.len()
            invariant_except_break
                mode == ShrinkMode::Greedy ==> chosen is None,
                !hit,
            invariant
                lens.len() == listed.len(),
                seen.len() == listed.len(),
                forall|q: int| k <= q < seen.len() ==> !#[trigger] seen[q],
                forall|q: int| 0 <= q < k ==> #[trigger] seen[q] || passed_once(*prop, listed[q]),
                forall|q: int| 0 <= q < k && #[trigger] seen[q] ==> fails(*prop, listed[q]) && rendered_len(listed[q], lens[q]),
                chosen is None ==> forall|q: int| 0 <= q < k ==> !#[trigger] seen[q],
                mode == ShrinkMode::Exhaustive ==> (chosen matches Some(c) ==> c < k && seen[c as int] && best_len as nat == lens[c as int]
                    && (forall|q: int| 0 <= q < c && #[trigger] seen[q] ==> lens[q] > lens[c as int])
                    && (forall|q: int| c < q < k && #[trigger] seen[q] ==> lens[q] >= lens[c as int])),
                forall|q: int| 0 <= q < k ==> ran_once(*prop, #[trigger] listed[q]),
                runs.len() == attempts,
                forall|i: int| 0 <= i < runs.len() ==> ran_once(*prop, #[trigger] runs[i]),
                chosen is None ==> forall|q: int| 0 <= q < k ==> passed_once(*prop, #[trigger] listed[q]),
                hit ==> attempts >= max,
                (last_partial && start_attempts >= max) ==> chosen is None,
                forall|a: &A| call_requires(*prop, (a,)),
                attempts <= max,
                start_attempts <= attempts,
                k <= candidates@.len(),
                candidates@ == listed,
                chosen matches Some(c) ==> c < candidates@.len() && fails(*prop, candidates@[c as int]) && attempts > start_attempts,
                mode == ShrinkMode::Greedy ==> forall|q: int| 0 <= q < k ==> passed_once(*prop, #[trigger] listed[q]),
            ensures
                mode == ShrinkMode::Greedy ==> (chosen matches Some(c) ==> forall|q: int| 0 <= q < c ==> passed_once(*prop, #[trigger] listed[q])),
                mode == ShrinkMode::Exhaustive && !hit ==> forall|q: int| 0 <= q < listed.len() ==> ran_once(*prop, #[trigger] listed[q]),
                hit ==> attempts >= max,
                (last_partial && start_attempts >= max) ==> chosen is None,
                chosen is None && !hit ==> forall|q: int| 0 <= q < listed.len() ==> passed_once(*prop, #[trigger] listed[q]),
            decreases candidates@.len() - k,
        {
            if attempts >= max {
                proof {
                    hit = true;
                }
                break;
            }
            attempts = attempts + 1;
            let report = prop(&candidates[k]);
            proof {
                assert(ran_once(*prop, listed[k as int]));
                let r0 = runs;
                runs = runs.push(listed[k as int]);
                assert forall|i: int| 0 <= i < runs.len() implies ran_once(*prop, #[trigger] runs[i]) by {
                    if i < r0.len() {
                        assert(runs[i] == r0[i]);
                    }
                }
                if !(report.outcome is Fail) {
                    assert(passed_once(*prop, listed[k as int]));
                }
            }
            let failed = match report.outcome {
                CaseOutcome::Fail(_) => true,
                _ => false,
            };
            if failed {
                match mode {
                    ShrinkMode::Greedy => {
                        chosen = Some(k);
                        assert(fails(*prop, candidates@[k as int]));
                        break;
                    },
                    ShrinkMode::Exhaustive => {
                        let ghost mut s_prev: Seq<bool> = seen;
                        let ghost mut l_prev: Seq<nat> = lens;
                        let text = render(&candidates[k]);
                        let shown = text.as_str();
                        let len = shown.len();
                        proof {
                            assert(call_ensures(debug_text::<A>, (&listed[k as int],), text));
                            assert(shown@ == text@);
                            assert(len == shown.spec_bytes().len() as usize);
                            assert(shown.spec_bytes() == vstd::utf8::encode_utf8(text@));
                            assert(rendered_len(listed[k as int], len as nat));
                            assert(fails(*prop, listed[k as int]));
                            s_prev = seen;
                            l_prev = lens;
                            seen = seen.update(k as int, true);
                            lens = lens.update(k as int, len as nat);
                            assert forall|q: int| 0 <= q < k && #[trigger] seen[q] implies fails(*prop, listed[q]) && rendered_len(listed[q], lens[q]) by {
                                assert(s_prev[q] && l_prev[q] == lens[q]);
                            }
                            assert(forall|q: int| 0 <= q < k ==> seen[q] == s_prev[q] && lens[q] == l_prev[q]);
                        }
                        let better = match chosen {
                            Some(_) => len < best_len,
                            None => true,
                        };
                        if better {
                            chosen = Some(k);
                            best_len = len;
                        }
                        proof {
                            assert(seen[k as int] && lens[k as int] == len as nat);
                        }
                    },
                }
            }
            k = k + 1;
        }
        match chosen {
            Some(c) => {
                let ghost before = chain;
                current = candidates.remove(c);
                proof {
                    assert(listed[c as int] == current);
                    assert(listed.contains(current));
                    assert(before.last().shrinks_to(listed));
                    if mode == ShrinkMode::Greedy {
                        assert(first_failing_step(*prop, before.last(), current));
                    }
                    if mode == ShrinkMode::Exhaustive && !hit {
                        assert(surveyed_step(*prop, before.last(), current));
                    }
                    if mode == ShrinkMode::Exhaustive {
                        assert(shortest_among(*prop, listed, c as int, k as int, lens, seen));
                        assert(shortest_failing_step(*prop, before.last(), current));
                    }
                    chain = before.push(current);
                    if mode == ShrinkMode::Exhaustive {
                        assert forall|i: int| 0 <= i < chain.len() - 1 implies shortest_failing_step(*prop, #[trigger] chain[i], chain[i + 1]) by {
                            if i < before.len() - 1 {
                                assert(chain[i] == before[i] && chain[i + 1] == before[i + 1]);
                            } else {
                                assert(chain[i] == before.last());
                            }
                        }
                    }
                    if mode == ShrinkMode::Exhaustive {
                        assert forall|i: int| 0 <= i < chain.len() - 2 implies surveyed_step(*prop, #[trigger] chain[i], chain[i + 1]) by {
                            if i < before.len() - 2 {
                                assert(chain[i] == before[i] && chain[i + 1] == before[i + 1]);
                            } else {
                                assert(chain[i] == before[before.len() - 2] && chain[i + 1] == before.last());
                            }
                        }
                    }
                    last_partial = hit;
                    if mode == ShrinkMode::Greedy {
                        assert forall|i: int| 0 <= i < chain.len() - 1 implies first_failing_step(*prop, #[trigger] chain[i], chain[i + 1]) by {
                            if i < before.len() - 1 {
                                assert(chain[i] == before[i] && chain[i + 1] == before[i + 1]);
                            } else {
                                assert(chain[i] == before.last());
                            }
                        }
                    }
                    assert forall|i: int| 0 <= i < chain.len() - 1 implies shrinks_into(#[trigger] chain[i], chain[i + 1]) by {
                        if i < before.len() - 1 {
                            assert(chain[i] == before[i] && chain[i + 1] == before[i + 1]);
                        } else {
                            assert(chain[i] == before.last());
                            assert(chain[i].shrinks_to(listed) && listed.contains(chain[i + 1]));
                        }
                    }
                }
            },
            None => {
                proof {
                    if hit {
                        assert(spent_on(*prop, max, runs));
                    } else {
                        assert(current.shrinks_to(listed));
                        assert(locally_minimal(*prop, current));
                    }
                }
                return current;
            },
        }
    }
}

/// The reason of a run stopped for too many discards.
pub open spec fn discards_reason(discarded: nat, max: nat) -> Seq<char> {
    "too many discards: "@ + crate::text::decimal(discarded) + " (limit "@ + crate::text::decimal(max)
        + ") \u{2014} your prop_assume! preconditions reject too many generated cases. Tighten the generator."@
}

/// The reason of a run stopped for too many skips.
pub open spec fn skips_reason(skipped: nat, max: nat) -> Seq<char> {
    "too many skips: "@ + crate::text::decimal(skipped) + " (limit "@ + crate::text::decimal(max)
        + ") \u{2014} the test environment is not providing required preconditions. Check prop_skip! call sites."@
}

/// Builds `head<n> (limit <max>)tail`.
fn counted_reason(head: &str, n: usize, max: usize, tail: &str) -> (r: String)
    ensures
        r@ == head@ + crate::text::decimal(n as nat) + " (limit "@ + crate::text::decimal(max as nat) + tail@,
{
    let mut s = String::new();
    string_push_str(&mut s, head);
    push_decimal(&mut s, n as u64);
    string_push_str(&mut s, " (limit ");
    push_decimal(&mut s, max as u64);
    string_push_str(&mut s, tail);
    s
}

/// The size hint of the case after `passed` passing ones:
/// `1 + min(passed * max_size / target, max_size)`.
pub open spec fn case_size(passed: nat, max_size: nat, target: nat) -> nat {
    let grown = passed * max_size / target;
    1 + if grown < max_size { grown } else { max_size }
}

/// Computes [`case_size`].
pub fn case_size_for(passed: usize, max_size: usize, target: usize) -> (r: usize)
    requires
        target > 0,
        max_size < usize::MAX,
    ensures
        r == case_size(passed as nat, max_size as nat, target as nat),
{
    let p = passed as u128;
    let m = max_size as u128;
    assert(p * m <= 0xffff_ffff_ffff_ffff * 0xffff_ffff_ffff_ffff) by (nonlinear_arith)
        requires p <= 0xffff_ffff_ffff_ffff, m <= 0xffff_ffff_ffff_ffff;
    let grown = p * m / (target as u128);
    if grown < m {
        1 + grown as usize
    } else {
        1 + max_size
    }
}

/// The facts every run outcome satisfies, for a run with configuration
/// `cfg` whose replayed seeds are `seeds`.
pub open spec fn outcome_fits<A>(cfg: Config, seeds: Seq<u64>, r: Outcome<A>) -> bool {
    let target: nat = if cfg.cases > 0 { cfg.cases as nat } else { 1 };
    match r {
        Outcome::Passed { cases, discarded, skipped, classifications } => {
            &&& cases == target
            &&& discarded <= cfg.max_discards
            &&& skipped <= cfg.max_skips
            &&& classifications.spec_total() == cases
        },
        Outcome::Failed { seed, attempt, discarded, skipped, classifications, .. } => {
            ||| (seed == cfg.seed && 1 <= attempt <= target && discarded <= cfg.max_discards
                && skipped <= cfg.max_skips && classifications.spec_total() == attempt)
            ||| (seeds.contains(seed) && attempt == 0 && discarded == 0 && skipped == 0
                && classifications.spec_total() == 0)
        },
        Outcome::Aborted { reason, cases, discarded, skipped, seed, classifications } => {
            &&& seed == cfg.seed
            &&& cases < target
            &&& classifications.spec_total() == cases
            &&& (reason@ == discards_reason(discarded as nat, cfg.max_discards as nat) && (discarded > cfg.max_discards || discarded == usize::MAX))
                || (reason@ == skips_reason(skipped as nat, cfg.max_skips as nat) && (skipped > cfg.max_skips || skipped == usize::MAX))
        },
    }
}

/// The passes, discards and skips among `os`.
pub open spec fn tally(os: Seq<CaseOutcome>) -> (nat, nat, nat)
    decreases os.len(),
{
    if os.len() == 0 {
        (0, 0, 0)
    } else {
        let t = tally(os.drop_last());
        match os.last() {
            CaseOutcome::Pass => (t.0 + 1, t.1, t.2),
            CaseOutcome::Discard => (t.0, t.1 + 1, t.2),
            CaseOutcome::Skip(_) => (t.0, t.1, t.2 + 1),
            CaseOutcome::Fail(_) => t,
        }
    }
}

/// No outcome of `os` is a failure.
pub open spec fn no_failure(os: Seq<CaseOutcome>) -> bool {
    forall|j: int| 0 <= j < os.len() ==> !(#[trigger] os[j] is Fail)
}

/// The number of passing cases a run aims for: `cfg.cases`, at least one.
pub open spec fn target_cases(cfg: Config) -> nat {
    if cfg.cases > 0 {
        cfg.cases as nat
    } else {
        1
    }
}

/// After the cases with outcomes `os`, the run draws another case: none
/// failed, fewer than the target passed, and neither the discards nor the
/// skips went past their limits (nor reached `usize::MAX`).
pub open spec fn run_goes_on(cfg: Config, os: Seq<CaseOutcome>) -> bool {
    let t = tally(os);
    &&& no_failure(os)
    &&& t.0 < target_cases(cfg)
    &&& t.1 <= cfg.max_discards && t.1 < usize::MAX
    &&& t.2 <= cfg.max_skips && t.2 < usize::MAX
}

/// The outcomes of the cases of `trace`.
pub open spec fn outcomes_of<A>(trace: Seq<(A, CaseOutcome)>) -> Seq<CaseOutcome> {
    trace.map_values(|c: (A, CaseOutcome)| c.1)
}

/// The size hint of the case after the cases with outcomes `os`.
pub open spec fn size_after(cfg: Config, os: Seq<CaseOutcome>) -> usize {
    case_size(tally(os).0, cfg.max_size as nat, target_cases(cfg)) as usize
}

/// Generating with `A::arbitrary` from the words `before` with size `size`
/// gives `v` and leaves the words `after`.
pub open spec fn arbitrary_draw<A: Arbitrary>() -> spec_fn(Stream, Stream, usize, A) -> bool {
    |before: Stream, after: Stream, size: usize, v: A| A::arbitrary_from(before, after, size, v)
}

/// Running `prop` on `v` can end with outcome `o`.
pub open spec fn reported_by<A, F: Fn(&A) -> CaseReport>(prop: F) -> spec_fn(A, CaseOutcome) -> bool {
    |v: A, o: CaseOutcome| exists|c: CaseReport| call_ensures(prop, (&v,), c) && c.outcome == o
}

/// Running `prop` on `v` can return a value that converts into a property
/// result whose case outcome is `o`.
pub open spec fn reported_via<A, R: IntoPropResult, F: Fn(&A) -> R>(prop: F) -> spec_fn(A, CaseOutcome) -> bool {
    |v: A, o: CaseOutcome| exists|res: R, p: PropResult| call_ensures(prop, (&v,), res) && res.converts_to(p) && o == report_of(p)
}

/// The cases of `trace` were drawn in turn along the word streams
/// `states` (by `draw`, with the size hint the run gives each case) and
/// the property reported their outcomes (by `rep`).
pub open spec fn drawn_along<A>(
    cfg: Config,
    draw: spec_fn(Stream, Stream, usize, A) -> bool,
    rep: spec_fn(A, CaseOutcome) -> bool,
    states: Seq<Stream>,
    trace: Seq<(A, CaseOutcome)>,
) -> bool {
    &&& states.len() == trace.len() + 1
    &&& forall|i: int| 0 <= i < trace.len() ==> #[trigger] case_ok(cfg, draw, rep, states, trace, i)
}

/// Case `i` of `trace` was drawn from the words `states[i]`, leaving
/// `states[i + 1]`, with the size hint the run gives it, and the property
/// reported its outcome.
pub open spec fn case_ok<A>(
    cfg: Config,
    draw: spec_fn(Stream, Stream, usize, A) -> bool,
    rep: spec_fn(A, CaseOutcome) -> bool,
    states: Seq<Stream>,
    trace: Seq<(A, CaseOutcome)>,
    i: int,
) -> bool {
    &&& draw(states[i], states[i + 1], size_after(cfg, outcomes_of(trace).take(i)), trace[i].0)
    &&& rep(trace[i].0, trace[i].1)
}

/// `trace` is the sequence of cases a run under `cfg` draws from the words
/// `start`: each case drawn where the run goes on after the cases before.
pub open spec fn run_cases<A>(
    cfg: Config,
    draw: spec_fn(Stream, Stream, usize, A) -> bool,
    rep: spec_fn(A, CaseOutcome) -> bool,
    start: Stream,
    trace: Seq<(A, CaseOutcome)>,
) -> bool {
    &&& forall|i: int| 0 <= i < trace.len() ==> run_goes_on(cfg, #[trigger] outcomes_of(trace).take(i))
    &&& exists|states: Seq<Stream>| #[trigger] drawn_along(cfg, draw, rep, states, trace) && states[0] == start
}

/// How a run whose cases were `trace` ends: passed once the target passed,
/// failed on the last case (its value the original, the counts those
/// before it), or stopped because the discards or skips went past their
/// limits.
pub open spec fn run_ends<A>(cfg: Config, trace: Seq<(A, CaseOutcome)>, r: Outcome<A>) -> bool {
    let os = outcomes_of(trace);
    let t = tally(os);
    match r {
        Outcome::Passed { cases, discarded, skipped, .. } => {
            &&& no_failure(os)
            &&& t.0 == target_cases(cfg)
            &&& cases == t.0 && discarded == t.1 && skipped == t.2
        },
        Outcome::Failed { original, message, seed, attempt, discarded, skipped, .. } => {
            let before = tally(os.drop_last());
            &&& os.len() > 0
            &&& os.last() == CaseOutcome::Fail(message)
            &&& original == trace.last().0
            &&& seed == cfg.seed
            &&& attempt == before.0 + 1 && discarded == before.1 && skipped == before.2
        },
        Outcome::Aborted { cases, discarded, skipped, .. } => {
            &&& !run_goes_on(cfg, os)
            &&& no_failure(os)
            &&& t.0 < target_cases(cfg)
            &&& cases == t.0 && discarded == t.1 && skipped == t.2
        },
    }
}

/// The size hint of a replayed regression case: half of `max_size`, at
/// least one.
pub open spec fn replay_size(cfg: Config) -> usize {
    if cfg.max_size / 2 > 1 {
        (cfg.max_size / 2) as usize
    } else {
        1
    }
}

/// Replaying the regression seed `s` draws `v` (leaving the words
/// `after`) and the property reports `o` on it.
pub open spec fn replay_case<A>(
    cfg: Config,
    draw: spec_fn(Stream, Stream, usize, A) -> bool,
    rep: spec_fn(A, CaseOutcome) -> bool,
    s: u64,
    v: A,
    after: Stream,
    o: CaseOutcome,
) -> bool {
    draw(seed_stream(s), after, replay_size(cfg), v) && rep(v, o)
}

/// Replaying the regression seed `s` gives a case that does not fail.
pub open spec fn seed_passes<A>(
    cfg: Config,
    draw: spec_fn(Stream, Stream, usize, A) -> bool,
    rep: spec_fn(A, CaseOutcome) -> bool,
    s: u64,
) -> bool {
    exists|v: A, after: Stream, o: CaseOutcome| #[trigger] replay_case(cfg, draw, rep, s, v, after, o) && !(o is Fail)
}

/// Every regression seed of `seeds` replays a case that does not fail.
pub open spec fn replays_pass<A>(
    cfg: Config,
    draw: spec_fn(Stream, Stream, usize, A) -> bool,
    rep: spec_fn(A, CaseOutcome) -> bool,
    seeds: Seq<u64>,
) -> bool {
    forall|k: int| 0 <= k < seeds.len() ==> seed_passes(cfg, draw, rep, #[trigger] seeds[k])
}

/// The message of a failure a regression seed reproduced.
pub open spec fn replay_message(seed: u64, m: Seq<char>) -> Seq<char> {
    "regression seed "@ + crate::text::decimal(seed as nat) + " reproduced: "@ + m
}

/// A run with no regression failure: every seed of `seeds` replays a
/// passing case, and the cases drawn from the words of `cfg.seed` decide
/// the outcome as [`run_ends`] says.
pub open spec fn run_from_seed<A>(
    cfg: Config,
    seeds: Seq<u64>,
    draw: spec_fn(Stream, Stream, usize, A) -> bool,
    rep: spec_fn(A, CaseOutcome) -> bool,
    r: Outcome<A>,
) -> bool {
    &&& replays_pass(cfg, draw, rep, seeds)
    &&& exists|trace: Seq<(A, CaseOutcome)>|
        #[trigger] run_cases(cfg, draw, rep, seed_stream(cfg.seed), trace) && run_ends(cfg, trace, r)
}

/// What a run under `cfg` that replays `seeds`, draws with `draw` and
/// learns outcomes through `rep` gives: the first regression seed whose
/// case fails is reported with attempt 0 and no discard or skip (every seed
/// before it passing);
/// otherwise [`run_from_seed`] holds.
pub open spec fn run_described<A>(
    cfg: Config,
    seeds: Seq<u64>,
    draw: spec_fn(Stream, Stream, usize, A) -> bool,
    rep: spec_fn(A, CaseOutcome) -> bool,
    r: Outcome<A>,
) -> bool {
    match r {
        Outcome::Failed { original, message, seed, attempt, discarded, skipped, .. } => if attempt == 0 {
            discarded == 0 && skipped == 0 && exists|k: int, after: Stream, m: String|
                0 <= k < seeds.len() && #[trigger] replay_case(cfg, draw, rep, seeds[k], original, after, CaseOutcome::Fail(m))
                    && seed == seeds[k] && message@ == replay_message(seeds[k], m@)
                    && replays_pass(cfg, draw, rep, seeds.take(k))
        } else {
            run_from_seed(cfg, seeds, draw, rep, r)
        },
        _ => run_from_seed(cfg, seeds, draw, rep, r),
    }
}

/// One more regression seed that replays a passing case extends the seeds
/// that all pass.
pub proof fn lemma_replays_push<A>(
    cfg: Config,
    draw: spec_fn(Stream, Stream, usize, A) -> bool,
    rep: spec_fn(A, CaseOutcome) -> bool,
    seeds: Seq<u64>,
    k: int,
    v: A,
    after: Stream,
    o: CaseOutcome,
)
    requires
        0 <= k < seeds.len(),
        replays_pass(cfg, draw, rep, seeds.take(k)),
        replay_case(cfg, draw, rep, seeds[k], v, after, o),
        !(o is Fail),
    ensures
        replays_pass(cfg, draw, rep, seeds.take(k + 1)),
{
    let nt = seeds.take(k + 1);
    assert(seed_passes(cfg, draw, rep, seeds[k]));
    assert forall|j: int| 0 <= j < nt.len() implies seed_passes(cfg, draw, rep, #[trigger] nt[j]) by {
        if j < k {
            assert(nt[j] == seeds.take(k)[j]);
        } else {
            assert(nt[j] == seeds[k]);
        }
    }
}

/// A regression failure at seed `k`, after seeds that all passed, is a run
/// described by [`run_described`].
pub proof fn lemma_replay_failure<A>(
    cfg: Config,
    seeds: Seq<u64>,
    draw: spec_fn(Stream, Stream, usize, A) -> bool,
    rep: spec_fn(A, CaseOutcome) -> bool,
    k: int,
    after: Stream,
    m: String,
    r: Outcome<A>,
)
    requires
        0 <= k < seeds.len(),
        replays_pass(cfg, draw, rep, seeds.take(k)),
        r matches Outcome::Failed { original, message, seed, attempt, discarded, skipped, .. } && attempt == 0
            && discarded == 0 && skipped == 0
            && seed == seeds[k] && message@ == replay_message(seeds[k], m@)
            && replay_case(cfg, draw, rep, seeds[k], original, after, CaseOutcome::Fail(m)),
    ensures
        run_described(cfg, seeds, draw, rep, r),
{
}

/// Seeds that all pass with outcomes learnt through `rep1` pass with any
/// `rep2` that admits every outcome `rep1` does.
pub proof fn lemma_replays_weaken<A>(
    cfg: Config,
    draw: spec_fn(Stream, Stream, usize, A) -> bool,
    rep1: spec_fn(A, CaseOutcome) -> bool,
    rep2: spec_fn(A, CaseOutcome) -> bool,
    seeds: Seq<u64>,
)
    requires
        replays_pass(cfg, draw, rep1, seeds),
        forall|v: A, o: CaseOutcome| #[trigger] rep1(v, o) ==> rep2(v, o),
    ensures
        replays_pass(cfg, draw, rep2, seeds),
{
    assert forall|k: int| 0 <= k < seeds.len() implies seed_passes(cfg, draw, rep2, #[trigger] seeds[k]) by {
        assert(seed_passes(cfg, draw, rep1, seeds[k]));
        let (v, after, o) = choose|v: A, after: Stream, o: CaseOutcome|
            #[trigger] replay_case(cfg, draw, rep1, seeds[k], v, after, o) && !(o is Fail);
        assert(rep1(v, o));
        assert(replay_case(cfg, draw, rep2, seeds[k], v, after, o));
    }
}

/// Cases drawn with outcomes learnt through `rep1` are drawn with any
/// `rep2` that admits every outcome `rep1` does.
#[verifier::spinoff_prover]
#[verifier::rlimit(60)]
pub proof fn lemma_cases_weaken<A>(
    cfg: Config,
    draw: spec_fn(Stream, Stream, usize, A) -> bool,
    rep1: spec_fn(A, CaseOutcome) -> bool,
    rep2: spec_fn(A, CaseOutcome) -> bool,
    start: Stream,
    trace: Seq<(A, CaseOutcome)>,
)
    requires
        run_cases(cfg, draw, rep1, start, trace),
        forall|v: A, o: CaseOutcome| #[trigger] rep1(v, o) ==> rep2(v, o),
    ensures
        run_cases(cfg, draw, rep2, start, trace),
{
    let states = choose|states: Seq<Stream>| #[trigger] drawn_along(cfg, draw, rep1, states, trace) && states[0] == start;
    assert forall|i: int| 0 <= i < trace.len() implies #[trigger] case_ok(cfg, draw, rep2, states, trace, i) by {
        assert(case_ok(cfg, draw, rep1, states, trace, i));
        assert(rep1(trace[i].0, trace[i].1));
    }
    assert(drawn_along(cfg, draw, rep2, states, trace));
}

/// A run described with outcomes learnt through `rep1` is described with
/// any `rep2` that admits every outcome `rep1` does.
pub proof fn lemma_run_described_weaken<A>(
    cfg: Config,
    seeds: Seq<u64>,
    draw: spec_fn(Stream, Stream, usize, A) -> bool,
    rep1: spec_fn(A, CaseOutcome) -> bool,
    rep2: spec_fn(A, CaseOutcome) -> bool,
    r: Outcome<A>,
)
    requires
        run_described(cfg, seeds, draw, rep1, r),
        forall|v: A, o: CaseOutcome| #[trigger] rep1(v, o) ==> rep2(v, o),
    ensures
        run_described(cfg, seeds, draw, rep2, r),
{
    match r {
        Outcome::Failed { original, message, seed, attempt, .. } => {
            if attempt == 0 {
                let (k, after, m) = choose|k: int, after: Stream, m: String|
                    0 <= k < seeds.len() && #[trigger] replay_case(cfg, draw, rep1, seeds[k], original, after, CaseOutcome::Fail(m))
                        && seed == seeds[k] && message@ == replay_message(seeds[k], m@)
                        && replays_pass(cfg, draw, rep1, seeds.take(k));
                lemma_replays_weaken(cfg, draw, rep1, rep2, seeds.take(k));
                assert(rep1(original, CaseOutcome::Fail(m)));
                assert(replay_case(cfg, draw, rep2, seeds[k], original, after, CaseOutcome::Fail(m)));
                return;
            }
        },
        _ => {},
    }
    lemma_replays_weaken(cfg, draw, rep1, rep2, seeds);
    let trace = choose|trace: Seq<(A, CaseOutcome)>|
        #[trigger] run_cases(cfg, draw, rep1, seed_stream(cfg.seed), trace) && run_ends(cfg, trace, r);
    lemma_cases_weaken(cfg, draw, rep1, rep2, seed_stream(cfg.seed), trace);
}

/// Adding a case adds its outcome, and keeps the outcomes before it.
pub proof fn lemma_outcomes_push<A>(trace: Seq<(A, CaseOutcome)>, c: (A, CaseOutcome))
    ensures
        outcomes_of(trace.push(c)) == outcomes_of(trace).push(c.1),
        outcomes_of(trace.push(c)).drop_last() == outcomes_of(trace),
        outcomes_of(trace.push(c)).take(trace.len() as int) == outcomes_of(trace),
        forall|i: int| 0 <= i <= trace.len() ==> #[trigger] outcomes_of(trace.push(c)).take(i) == outcomes_of(trace).take(i),
{
    assert(outcomes_of(trace.push(c)) =~= outcomes_of(trace).push(c.1));
    assert forall|i: int| 0 <= i <= trace.len() implies #[trigger] outcomes_of(trace.push(c)).take(i) == outcomes_of(trace).take(i) by {
        assert(outcomes_of(trace.push(c)).take(i) =~= outcomes_of(trace).take(i));
    }
    assert(outcomes_of(trace).push(c.1).drop_last() =~= outcomes_of(trace));
    assert(outcomes_of(trace).take(trace.len() as int) =~= outcomes_of(trace));
}

/// A case drawn where the last one left the words extends a trace drawn
/// along `states`.
pub proof fn lemma_drawn_push<A>(
    cfg: Config,
    draw: spec_fn(Stream, Stream, usize, A) -> bool,
    rep: spec_fn(A, CaseOutcome) -> bool,
    states: Seq<Stream>,
    trace: Seq<(A, CaseOutcome)>,
    after: Stream,
    c: (A, CaseOutcome),
)
    requires
        drawn_along(cfg, draw, rep, states, trace),
        draw(states.last(), after, size_after(cfg, outcomes_of(trace)), c.0),
        rep(c.0, c.1),
    ensures
        drawn_along(cfg, draw, rep, states.push(after), trace.push(c)),
{
    lemma_outcomes_push(trace, c);
    let ns = states.push(after);
    let nt = trace.push(c);
    assert forall|i: int| 0 <= i < nt.len() implies #[trigger] case_ok(cfg, draw, rep, ns, nt, i) by {
        assert(outcomes_of(nt).take(i) == outcomes_of(trace).take(i));
        if i < trace.len() {
            assert(case_ok(cfg, draw, rep, states, trace, i));
            assert(ns[i] == states[i] && ns[i + 1] == states[i + 1] && nt[i] == trace[i]);
        } else {
            assert(ns[i] == states.last());
            assert(outcomes_of(trace).take(i) =~= outcomes_of(trace));
        }
    }
}

/// Where the run goes on after a trace, the trace with one more case has
/// every prefix where the run went on.
pub proof fn lemma_goes_on_push<A>(cfg: Config, trace: Seq<(A, CaseOutcome)>, c: (A, CaseOutcome))
    requires
        forall|i: int| 0 <= i < trace.len() ==> run_goes_on(cfg, #[trigger] outcomes_of(trace).take(i)),
        run_goes_on(cfg, outcomes_of(trace)),
    ensures
        forall|i: int| 0 <= i < trace.push(c).len() ==> run_goes_on(cfg, #[trigger] outcomes_of(trace.push(c)).take(i)),
{
    lemma_outcomes_push(trace, c);
    assert forall|i: int| 0 <= i < trace.push(c).len() implies run_goes_on(cfg, #[trigger] outcomes_of(trace.push(c)).take(i)) by {
        assert(outcomes_of(trace.push(c)).take(i) == outcomes_of(trace).take(i));
        if i == trace.len() {
            assert(outcomes_of(trace).take(i) =~= outcomes_of(trace));
        }
    }
}

/// Replays `regression_seeds`, then runs `prop` on cases generated from
/// `cfg.seed` until `cfg.cases` (at least one) have passed, a case fails,
/// or the discards or skips exceed their limits. A failing case is shrunk.
///
/// A counter that reaches `usize::MAX` stops the run as if its limit had
/// been exceeded.
pub fn run_loop<A: Arbitrary + Clone + core::fmt::Debug, F: Fn(&A) -> CaseReport>(
    cfg: &Config,
    prop: &F,
    regression_seeds: &[u64],
) -> (r: Outcome<A>)
    requires
        forall|a: &A| call_requires(*prop, (a,)),
        cfg.max_size < usize::MAX,
    ensures
        outcome_fits(*cfg, regression_seeds@, r),
        run_described(*cfg, regression_seeds@, arbitrary_draw::<A>(), reported_by(*prop), r),
        r matches Outcome::Failed { original, shrunk, .. } ==> fails(*prop, original) && (cloned(original, shrunk) || fails(*prop, shrunk)),
        r matches Outcome::Failed { original, shrunk, .. } ==> shrunk_by(*prop, *cfg, original, shrunk),
{
    let ghost draw = arbitrary_draw::<A>();
    let ghost rep = reported_by(*prop);
    let ghost seeds = regression_seeds@;
    let mut idx: usize = 0;
    assert(seeds.take(0) =~= Seq::<u64>::empty());
    while idx < regression_seeds.len()
        invariant
            forall|a: &A| call_requires(*prop, (a,)),
            idx <= regression_seeds@.len(),
            seeds == regression_seeds@,
            draw == arbitrary_draw::<A>(),
            rep == reported_by(*prop),
            replays_pass(*cfg, draw, rep, seeds.take(idx as int)),
        decreases regression_seeds@.len() - idx,
    {
        let rseed = regression_seeds[idx];
        let mut rng = XorShift64::seed_from_u64(rseed);
        proof {
            lemma_seed_stream(rseed, rng);
        }
        let ghost s0 = rng;
        let size = if cfg.max_size / 2 > 1 { cfg.max_size / 2 } else { 1 };
        let val: A = A::arbitrary(&mut rng, size);
        let report = prop(&val);
        let ghost o = report.outcome;
        let ghost after = outputs(rng);
        proof {
            assert(rep(val, o));
            assert(draw(seed_stream(rseed), after, replay_size(*cfg), val));
            assert(replay_case(*cfg, draw, rep, rseed, val, after, o));
            assert(seeds[idx as int] == rseed);
        }
        match report.outcome {
            CaseOutcome::Fail(msg) => {
                let shrunk = shrink_failure_with_mode(val.clone(), prop, cfg.max_shrinks, cfg.shrink_mode);
                let mut message = String::new();
                string_push_str(&mut message, "regression seed ");
                push_decimal(&mut message, rseed);
                string_push_str(&mut message, " reproduced: ");
                string_push_str(&mut message, msg.as_str());
                proof {
                    assert(o == CaseOutcome::Fail(msg));
                    assert(message@ == replay_message(rseed, msg@));
                }
                let r = Outcome::Failed {
                    original: val,
                    shrunk,
                    message,
                    seed: rseed,
                    attempt: 0,
                    discarded: 0,
                    skipped: 0,
                    classifications: Classifications::new(),
                };
                proof {
                    lemma_replay_failure(*cfg, seeds, draw, rep, idx as int, after, msg, r);
                }
                return r;
            },
            _ => {},
        }
        proof {
            lemma_replays_push(*cfg, draw, rep, seeds, idx as int, val, after, o);
        }
        idx = idx + 1;
    }
    assert(seeds.take(seeds.len() as int) =~= seeds);
    let mut rng = XorShift64::seed_from_u64(cfg.seed);
    proof {
        lemma_seed_stream(cfg.seed, rng);
    }
    let target: usize = if cfg.cases > 0 { cfg.cases } else { 1 };
    let mut passed: usize = 0;
    let mut discarded: usize = 0;
    let mut skipped: usize = 0;
    let mut classifications = Classifications::new();
    let ghost mut trace: Seq<(A, CaseOutcome)> = seq![];
    let ghost mut states: Seq<Stream> = seq![outputs(rng)];
    proof {
        assert(outcomes_of(trace) =~= Seq::<CaseOutcome>::empty());
        assert(drawn_along(*cfg, draw, rep, states, trace));
    }
    while passed < target
        invariant
            forall|a: &A| call_requires(*prop, (a,)),
            cfg.max_size < usize::MAX,
            target == (if cfg.cases > 0 { cfg.cases } else { 1 }),
            passed <= target,
            discarded <= cfg.max_discards + 1,
            skipped <= cfg.max_skips + 1,
            classifications.spec_total() == passed,
            passed == target ==> discarded <= cfg.max_discards && skipped <= cfg.max_skips,
            draw == arbitrary_draw::<A>(),
            rep == reported_by(*prop),
            replays_pass(*cfg, draw, rep, seeds),
            seeds == regression_seeds@,
            states[0] == seed_stream(cfg.seed),
            states.last() == outputs(rng),
            drawn_along(*cfg, draw, rep, states, trace),
            forall|i: int| 0 <= i < trace.len() ==> run_goes_on(*cfg, #[trigger] outcomes_of(trace).take(i)),
            tally(outcomes_of(trace)) == (passed as nat, discarded as nat, skipped as nat),
            no_failure(outcomes_of(trace)),
        decreases (target - passed) + (cfg.max_discards + 1 - discarded) + (cfg.max_skips + 1 - skipped),
    {
        if discarded > cfg.max_discards || discarded == usize::MAX {
            let reason = counted_reason(
                "too many discards: ",
                discarded,
                cfg.max_discards,
                ") \u{2014} your prop_assume! preconditions reject too many generated cases. Tighten the generator.",
            );
            let r = Outcome::Aborted { reason, cases: passed, discarded, skipped, seed: cfg.seed, classifications };
            proof {
                assert(run_cases(*cfg, draw, rep, seed_stream(cfg.seed), trace) && run_ends(*cfg, trace, r));
            }
            return r;
        }
        if skipped > cfg.max_skips || skipped == usize::MAX {
            let reason = counted_reason(
                "too many skips: ",
                skipped,
                cfg.max_skips,
                ") \u{2014} the test environment is not providing required preconditions. Check prop_skip! call sites.",
            );
            let r = Outcome::Aborted { reason, cases: passed, discarded, skipped, seed: cfg.seed, classifications };
            proof {
                assert(run_cases(*cfg, draw, rep, seed_stream(cfg.seed), trace) && run_ends(*cfg, trace, r));
            }
            return r;
        }
        proof {
            assert(run_goes_on(*cfg, outcomes_of(trace)));
        }
        let size = case_size_for(passed, cfg.max_size, target);
        let ghost before = outputs(rng);
        let val: A = A::arbitrary(&mut rng, size);
        let report = prop(&val);
        let ghost o = report.outcome;
        let ghost c = (val, o);
        proof {
            assert(rep(val, o));
            assert(size == size_after(*cfg, outcomes_of(trace)));
            assert(draw(states.last(), outputs(rng), size_after(*cfg, outcomes_of(trace)), c.0));
            lemma_drawn_push(*cfg, draw, rep, states, trace, outputs(rng), c);
            lemma_goes_on_push(*cfg, trace, c);
            lemma_outcomes_push(trace, c);
            states = states.push(outputs(rng));
            trace = trace.push(c);
        }
        let CaseReport { outcome, labels } = report;
        match outcome {
            CaseOutcome::Pass => {
                passed = passed + 1;
                classifications.merge_case(labels);
                proof {
                    assert(no_failure(outcomes_of(trace)));
                }
            },
            CaseOutcome::Discard => {
                discarded = discarded + 1;
                proof {
                    assert(no_failure(outcomes_of(trace)));
                }
            },
            CaseOutcome::Skip(_) => {
                skipped = skipped + 1;
                proof {
                    assert(no_failure(outcomes_of(trace)));
                }
            },
            CaseOutcome::Fail(message) => {
                classifications.merge_case(labels);
                let shrunk = shrink_failure_with_mode(val.clone(), prop, cfg.max_shrinks, cfg.shrink_mode);
                let r = Outcome::Failed {
                    original: val,
                    shrunk,
                    message,
                    seed: cfg.seed,
                    attempt: passed + 1,
                    discarded,
                    skipped,
                    classifications,
                };
                proof {
                    assert(run_cases(*cfg, draw, rep, seed_stream(cfg.seed), trace) && run_ends(*cfg, trace, r));
                }
                return r;
            },
        }
    }
    let r = Outcome::Passed { cases: passed, discarded, skipped, classifications };
    proof {
        assert(run_cases(*cfg, draw, rep, seed_stream(cfg.seed), trace) && run_ends(*cfg, trace, r));
    }
    r
}

/// Running the property never reports a failure, on any value.
pub open spec fn never_fails<A, F: Fn(&A) -> CaseReport>(prop: F) -> bool {
    forall|a: A| !#[trigger] fails(prop, a)
}

/// `draw` gives at most one value, and one stream after it, for a stream
/// and a size hint.
pub open spec fn draw_deterministic<A>(draw: spec_fn(Stream, Stream, usize, A) -> bool) -> bool {
    forall|b: Stream, a1: Stream, a2: Stream, size: usize, v1: A, v2: A|
        #[trigger] draw(b, a1, size, v1) && #[trigger] draw(b, a2, size, v2) ==> a1 == a2 && v1 == v2
}

/// `rep` gives at most one outcome for a value.
pub open spec fn rep_deterministic<A>(rep: spec_fn(A, CaseOutcome) -> bool) -> bool {
    forall|v: A, o1: CaseOutcome, o2: CaseOutcome| #[trigger] rep(v, o1) && #[trigger] rep(v, o2) ==> o1 == o2
}

/// Two outcomes agree on all that a run reports but the shrunk value and
/// the classification tallies: the kind of outcome, the counts, and for a
/// failure the original value, the message, the seed and the attempt.
pub open spec fn same_verdict<A>(r1: Outcome<A>, r2: Outcome<A>) -> bool {
    match (r1, r2) {
        (Outcome::Passed { cases: c1, discarded: d1, skipped: s1, .. }, Outcome::Passed { cases: c2, discarded: d2, skipped: s2, .. }) =>
            c1 == c2 && d1 == d2 && s1 == s2,
        (Outcome::Failed { original: o1, message: m1, seed: e1, attempt: a1, discarded: d1, skipped: s1, .. },
         Outcome::Failed { original: o2, message: m2, seed: e2, attempt: a2, discarded: d2, skipped: s2, .. }) =>
            o1 == o2 && m1@ == m2@ && e1 == e2 && a1 == a2 && d1 == d2 && s1 == s2,
        (Outcome::Aborted { cases: c1, discarded: d1, skipped: s1, .. }, Outcome::Aborted { cases: c2, discarded: d2, skipped: s2, .. }) =>
            c1 == c2 && d1 == d2 && s1 == s2,
        _ => false,
    }
}

/// Two traces drawn along word streams that start alike agree on their
/// first `n` cases, and their streams agree up to position `n`.
proof fn lemma_traces_agree<A>(
    cfg: Config,
    draw: spec_fn(Stream, Stream, usize, A) -> bool,
    rep: spec_fn(A, CaseOutcome) -> bool,
    s1: Seq<Stream>,
    s2: Seq<Stream>,
    t1: Seq<(A, CaseOutcome)>,
    t2: Seq<(A, CaseOutcome)>,
    n: int,
)
    requires
        draw_deterministic(draw),
        rep_deterministic(rep),
        drawn_along(cfg, draw, rep, s1, t1),
        drawn_along(cfg, draw, rep, s2, t2),
        s1[0] == s2[0],
        0 <= n <= t1.len(),
        n <= t2.len(),
    ensures
        t1.take(n) == t2.take(n),
        s1[n] == s2[n],
    decreases n,
{
    if n > 0 {
        lemma_traces_agree(cfg, draw, rep, s1, s2, t1, t2, n - 1);
        let i = n - 1;
        assert(case_ok(cfg, draw, rep, s1, t1, i));
        assert(case_ok(cfg, draw, rep, s2, t2, i));
        assert(outcomes_of(t1).take(i) == outcomes_of(t2).take(i)) by {
            assert forall|j: int| 0 <= j < i implies outcomes_of(t1).take(i)[j] == outcomes_of(t2).take(i)[j] by {
                assert(t1.take(i)[j] == t2.take(i)[j]);
            }
        }
        let z = size_after(cfg, outcomes_of(t1).take(i));
        assert(draw(s1[i], s1[i + 1], z, t1[i].0));
        assert(draw(s2[i], s2[i + 1], z, t2[i].0));
        assert(rep(t1[i].0, t1[i].1));
        assert(rep(t2[i].0, t2[i].1));
        assert(t1[i] == t2[i]);
        assert(t1.take(n) == t2.take(n)) by {
            assert forall|j: int| 0 <= j < n implies t1.take(n)[j] == t2.take(n)[j] by {
                if j < i {
                    assert(t1.take(i)[j] == t2.take(i)[j]);
                }
            }
        }
    }
}

/// A run's cases stop once the run no longer goes on.
proof fn lemma_ends_stop<A>(cfg: Config, trace: Seq<(A, CaseOutcome)>, r: Outcome<A>)
    requires
        run_ends(cfg, trace, r),
    ensures
        !run_goes_on(cfg, outcomes_of(trace)),
{
    let os = outcomes_of(trace);
    if r is Failed {
        assert(os[os.len() - 1] is Fail);
    }
}

/// Two runs from the same words with deterministic draws and reports have
/// the same cases.
proof fn lemma_same_cases<A>(
    cfg: Config,
    draw: spec_fn(Stream, Stream, usize, A) -> bool,
    rep: spec_fn(A, CaseOutcome) -> bool,
    start: Stream,
    t1: Seq<(A, CaseOutcome)>,
    t2: Seq<(A, CaseOutcome)>,
    r1: Outcome<A>,
    r2: Outcome<A>,
)
    requires
        draw_deterministic(draw),
        rep_deterministic(rep),
        run_cases(cfg, draw, rep, start, t1),
        run_cases(cfg, draw, rep, start, t2),
        run_ends(cfg, t1, r1),
        run_ends(cfg, t2, r2),
    ensures
        t1 == t2,
{
    let s1 = choose|states: Seq<Stream>| #[trigger] drawn_along(cfg, draw, rep, states, t1) && states[0] == start;
    let s2 = choose|states: Seq<Stream>| #[trigger] drawn_along(cfg, draw, rep, states, t2) && states[0] == start;
    lemma_ends_stop(cfg, t1, r1);
    lemma_ends_stop(cfg, t2, r2);
    if t1.len() < t2.len() {
        lemma_traces_agree(cfg, draw, rep, s1, s2, t1, t2, t1.len() as int);
        assert(t2.take(t1.len() as int) == t1);
        assert(run_goes_on(cfg, outcomes_of(t2).take(t1.len() as int)));
        assert(outcomes_of(t2).take(t1.len() as int) == outcomes_of(t1));
    } else if t2.len() < t1.len() {
        lemma_traces_agree(cfg, draw, rep, s1, s2, t1, t2, t2.len() as int);
        assert(t1.take(t2.len() as int) == t2);
        assert(run_goes_on(cfg, outcomes_of(t1).take(t2.len() as int)));
        assert(outcomes_of(t1).take(t2.len() as int) == outcomes_of(t2));
    } else {
        lemma_traces_agree(cfg, draw, rep, s1, s2, t1, t2, t1.len() as int);
        assert(t1.take(t1.len() as int) == t1);
        assert(t2.take(t2.len() as int) == t2);
    }
}

/// A regression seed that replays a failing case does not replay a
/// passing one, when draws and reports are deterministic.
proof fn lemma_replay_fails_not_passes<A>(
    cfg: Config,
    draw: spec_fn(Stream, Stream, usize, A) -> bool,
    rep: spec_fn(A, CaseOutcome) -> bool,
    s: u64,
    v: A,
    after: Stream,
    m: String,
)
    requires
        draw_deterministic(draw),
        rep_deterministic(rep),
        replay_case(cfg, draw, rep, s, v, after, CaseOutcome::Fail(m)),
    ensures
        !seed_passes(cfg, draw, rep, s),
{
    if seed_passes(cfg, draw, rep, s) {
        let (v2, a2, o2) = choose|v2: A, a2: Stream, o2: CaseOutcome| #[trigger] replay_case(cfg, draw, rep, s, v2, a2, o2) && !(o2 is Fail);
        assert(draw(seed_stream(s), after, replay_size(cfg), v));
        assert(draw(seed_stream(s), a2, replay_size(cfg), v2));
        assert(rep(v, CaseOutcome::Fail(m)));
        assert(rep(v2, o2));
    }
}

/// A run stops for too many discards or skips just as the count goes one
/// past its limit (or reaches `usize::MAX`): an aborted run has discarded
/// `max_discards + 1` cases or skipped `max_skips + 1`.
pub proof fn law_abort_counts<A>(
    cfg: Config,
    seeds: Seq<u64>,
    draw: spec_fn(Stream, Stream, usize, A) -> bool,
    rep: spec_fn(A, CaseOutcome) -> bool,
    r: Outcome<A>,
)
    requires
        run_described(cfg, seeds, draw, rep, r),
        r is Aborted,
    ensures
        r matches Outcome::Aborted { discarded, skipped, .. } && (
            discarded == cfg.max_discards + 1 || skipped == cfg.max_skips + 1
                || discarded == usize::MAX || skipped == usize::MAX),
{
    assert(run_from_seed(cfg, seeds, draw, rep, r));
    let trace = choose|trace: Seq<(A, CaseOutcome)>| #[trigger] run_cases(cfg, draw, rep, seed_stream(cfg.seed), trace) && run_ends(cfg, trace, r);
    let os = outcomes_of(trace);
    if os.len() == 0 {
        assert(tally(os) == (0nat, 0nat, 0nat));
        assert(no_failure(os));
        assert(run_goes_on(cfg, os));
    } else {
        let n = os.len() - 1;
        assert(run_goes_on(cfg, outcomes_of(trace).take(n)));
        assert(os.take(n) == os.drop_last());
        let prev = tally(os.drop_last());
        assert(tally(os) == match os.last() {
            CaseOutcome::Pass => (prev.0 + 1, prev.1, prev.2),
            CaseOutcome::Discard => (prev.0, prev.1 + 1, prev.2),
            CaseOutcome::Skip(_) => (prev.0, prev.1, prev.2 + 1),
            CaseOutcome::Fail(_) => prev,
        });
        assert(no_failure(os));
        assert(!(os[n] is Fail));
        assert(os.last() == os[n]);
    }
}

/// Two runs of [`forall_with`] under one configuration are reproducible: when
/// `A`'s generator is deterministic and the property gives one report per
/// value, the two outcomes that [`forall_with`] describes have the same
/// verdict.
pub proof fn law_forall_with_reproducible<A: Arbitrary, R: IntoPropResult, F: Fn(&A) -> R>(
    cfg: Config,
    prop: F,
    r1: Outcome<A>,
    r2: Outcome<A>,
)
    requires
        draws_deterministically::<A>(),
        rep_deterministic(reported_via::<A, R, F>(prop)),
        run_described(cfg, Seq::empty(), arbitrary_draw::<A>(), reported_via::<A, R, F>(prop), r1),
        run_described(cfg, Seq::empty(), arbitrary_draw::<A>(), reported_via::<A, R, F>(prop), r2),
    ensures
        same_verdict(r1, r2),
{
    let draw = arbitrary_draw::<A>();
    assert forall|b: Stream, a1: Stream, a2: Stream, size: usize, v1: A, v2: A|
        #[trigger] draw(b, a1, size, v1) && #[trigger] draw(b, a2, size, v2) implies a1 == a2 && v1 == v2 by {
        assert(A::arbitrary_from(b, a1, size, v1) && A::arbitrary_from(b, a2, size, v2));
    }
    law_same_seed_same_outcome(cfg, Seq::empty(), draw, reported_via::<A, R, F>(prop), r1, r2);
}

/// A run is reproducible: with draws and property reports that give one
/// result for one input, two runs under the same configuration, seed and
/// regression seeds report the same verdict — the same kind of outcome,
/// counts, and failing value, message, seed and attempt.
pub proof fn law_same_seed_same_outcome<A>(
    cfg: Config,
    seeds: Seq<u64>,
    draw: spec_fn(Stream, Stream, usize, A) -> bool,
    rep: spec_fn(A, CaseOutcome) -> bool,
    r1: Outcome<A>,
    r2: Outcome<A>,
)
    requires
        draw_deterministic(draw),
        rep_deterministic(rep),
        run_described(cfg, seeds, draw, rep, r1),
        run_described(cfg, seeds, draw, rep, r2),
    ensures
        same_verdict(r1, r2),
{
    let reg1 = r1 matches Outcome::Failed { attempt, .. } && attempt == 0;
    let reg2 = r2 matches Outcome::Failed { attempt, .. } && attempt == 0;
    if reg1 && reg2 {
        let (k1, a1, m1) = choose|k: int, after: Stream, m: String|
            0 <= k < seeds.len() && #[trigger] replay_case(cfg, draw, rep, seeds[k], r1->Failed_original, after, CaseOutcome::Fail(m))
                && r1->Failed_seed == seeds[k] && r1->Failed_message@ == replay_message(seeds[k], m@)
                && replays_pass(cfg, draw, rep, seeds.take(k));
        let (k2, a2, m2) = choose|k: int, after: Stream, m: String|
            0 <= k < seeds.len() && #[trigger] replay_case(cfg, draw, rep, seeds[k], r2->Failed_original, after, CaseOutcome::Fail(m))
                && r2->Failed_seed == seeds[k] && r2->Failed_message@ == replay_message(seeds[k], m@)
                && replays_pass(cfg, draw, rep, seeds.take(k));
        if k1 < k2 {
            lemma_replay_fails_not_passes(cfg, draw, rep, seeds[k1], r1->Failed_original, a1, m1);
            assert(seeds.take(k2)[k1] == seeds[k1]);
            assert(seed_passes(cfg, draw, rep, seeds.take(k2)[k1]));
        } else if k2 < k1 {
            lemma_replay_fails_not_passes(cfg, draw, rep, seeds[k2], r2->Failed_original, a2, m2);
            assert(seeds.take(k1)[k2] == seeds[k2]);
            assert(seed_passes(cfg, draw, rep, seeds.take(k1)[k2]));
        } else {
            assert(draw(seed_stream(seeds[k1]), a1, replay_size(cfg), r1->Failed_original));
            assert(draw(seed_stream(seeds[k1]), a2, replay_size(cfg), r2->Failed_original));
            assert(rep(r1->Failed_original, CaseOutcome::Fail(m1)));
            assert(rep(r2->Failed_original, CaseOutcome::Fail(m2)));
            assert(m1 == m2);
            assert(r1->Failed_message@ == r2->Failed_message@);
        }
    } else if reg1 {
        let (k1, a1, m1) = choose|k: int, after: Stream, m: String|
            0 <= k < seeds.len() && #[trigger] replay_case(cfg, draw, rep, seeds[k], r1->Failed_original, after, CaseOutcome::Fail(m))
                && r1->Failed_seed == seeds[k] && r1->Failed_message@ == replay_message(seeds[k], m@)
                && replays_pass(cfg, draw, rep, seeds.take(k));
        assert(run_from_seed(cfg, seeds, draw, rep, r2));
        lemma_replay_fails_not_passes(cfg, draw, rep, seeds[k1], r1->Failed_original, a1, m1);
        assert(seed_passes(cfg, draw, rep, seeds[k1]));
    } else if reg2 {
        let (k2, a2, m2) = choose|k: int, after: Stream, m: String|
            0 <= k < seeds.len() && #[trigger] replay_case(cfg, draw, rep, seeds[k], r2->Failed_original, after, CaseOutcome::Fail(m))
                && r2->Failed_seed == seeds[k] && r2->Failed_message@ == replay_message(seeds[k], m@)
                && replays_pass(cfg, draw, rep, seeds.take(k));
        assert(run_from_seed(cfg, seeds, draw, rep, r1));
        lemma_replay_fails_not_passes(cfg, draw, rep, seeds[k2], r2->Failed_original, a2, m2);
        assert(seed_passes(cfg, draw, rep, seeds[k2]));
    } else {
        assert(run_from_seed(cfg, seeds, draw, rep, r1));
        assert(run_from_seed(cfg, seeds, draw, rep, r2));
        let t1 = choose|trace: Seq<(A, CaseOutcome)>| #[trigger] run_cases(cfg, draw, rep, seed_stream(cfg.seed), trace) && run_ends(cfg, trace, r1);
        let t2 = choose|trace: Seq<(A, CaseOutcome)>| #[trigger] run_cases(cfg, draw, rep, seed_stream(cfg.seed), trace) && run_ends(cfg, trace, r2);
        lemma_same_cases(cfg, draw, rep, seed_stream(cfg.seed), t1, t2, r1, r2);
        let os = outcomes_of(t1);
        if r1 is Failed && r2 is Failed {
            assert(os.last() == CaseOutcome::Fail(r1->Failed_message));
            assert(os.last() == CaseOutcome::Fail(r2->Failed_message));
        }
        if r1 is Failed || r2 is Failed {
            assert(os.len() > 0 ==> os[os.len() - 1] == os.last());
        }
    }
}

/// A property that never fails has no failing run: a run of it (whose
/// failures are values the property fails on, as [`run_loop`] ensures)
/// passes or stops for too many discards or skips.
pub proof fn law_never_failing_property_has_no_failure<A, F: Fn(&A) -> CaseReport>(prop: F, r: Outcome<A>)
    requires
        never_fails(prop),
        r matches Outcome::Failed { original, .. } ==> fails(prop, original),
    ensures
        !(r is Failed),
{
    if let Outcome::Failed { original, .. } = r {
        assert(!fails(prop, original));
    }
}

/// `f` accepts `a`.
pub open spec fn callable<A, R, F: Fn(&A) -> R>(f: &F, a: &A) -> bool {
    call_requires(*f, (a,))
}

/// Runs `prop` against generated values of `A` under `cfg` (without
/// replaying regression seeds) and returns the [`Outcome`].
pub fn forall_with<A: Arbitrary + Clone + core::fmt::Debug, F: Fn(&A) -> R, R: IntoPropResult>(cfg: Config, prop: F) -> (r: Outcome<A>)
    requires
        forall|a: &A| call_requires(prop, (a,)),
        cfg.max_size < usize::MAX,
    ensures
        outcome_fits(cfg, Seq::empty(), r),
        run_described(cfg, Seq::empty(), arbitrary_draw::<A>(), reported_via::<A, R, F>(prop), r),
        r matches Outcome::Failed { original, shrunk, .. } ==> {
            &&& cloned(original, shrunk) || exists|o: CaseOutcome| #[trigger] reported_via::<A, R, F>(prop)(shrunk, o) && o is Fail
            &&& exists|chain: Seq<A>| #[trigger] shrink_chain(chain) && cloned(original, chain[0]) && chain.last() == shrunk
        },
{
    let pr = &prop;
    let wrapped = |a: &A| -> (c: CaseReport)
        requires
            callable(pr, a),
        ensures
            exists|res: R, p: PropResult| call_ensures(*pr, (a,), res) && res.converts_to(p) && c.outcome == report_of(p),
        {
            let res = pr(a);
            let ghost g = res;
            let p = res.into_prop_result();
            CaseReport { outcome: case_outcome_of(p), labels: Vec::new() }
        };
    let none: Vec<u64> = Vec::new();
    let r = run_loop(&cfg, &wrapped, none.as_slice());
    proof {
        assert(none@ =~= Seq::<u64>::empty());
        assert forall|v: A, o: CaseOutcome| #[trigger] reported_by(wrapped)(v, o) implies reported_via::<A, R, F>(prop)(v, o) by {
            let c = choose|c: CaseReport| call_ensures(wrapped, (&v,), c) && c.outcome == o;
        }
        lemma_run_described_weaken(cfg, Seq::empty(), arbitrary_draw::<A>(), reported_by(wrapped), reported_via::<A, R, F>(prop), r);
        if r is Failed {
            let shrunk = r->Failed_shrunk;
            if fails(wrapped, shrunk) {
                let c = choose|c: CaseReport| call_ensures(wrapped, (&shrunk,), c) && c.outcome is Fail;
                assert(reported_by(wrapped)(shrunk, c.outcome));
                assert(reported_via::<A, R, F>(prop)(shrunk, c.outcome));
            }
            let chain = choose|chain: Seq<A>|
                {
                    &&& shrink_chain(chain)
                    &&& cloned(r->Failed_original, chain[0])
                    &&& chain.last() == shrunk
                    &&& cfg.shrink_mode == ShrinkMode::Greedy ==> greedy_path(wrapped, chain)
                    &&& cfg.shrink_mode == ShrinkMode::Exhaustive ==> surveyed_path(wrapped, chain)
                };
            assert(shrink_chain(chain));
        }
    }
    r
}

} // verus!
