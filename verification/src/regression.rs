//! Regression seeds: the seeds of failed runs, kept in a small text file per
//! test and replayed before new random cases on later runs.
//!
//! The file holds a comment line and then one seed per line, at most
//! [`MAX_SEEDS_PER_FILE`] of them, the oldest dropped first. Reading and
//! writing the file is the caller's business; this module computes the
//! file's name from the test's name, parses its content and renders the
//! content to write back.
use vstd::prelude::*;
use crate::text::{chars_of, decimal, digit_char, push_decimal, string_from_chars, string_push, string_push_str};

verus! {

/// How many seeds one file keeps.
pub const MAX_SEEDS_PER_FILE: usize = 64;

/// A character kept as is in a file name: an ASCII letter or digit, `_` or
/// `-`.
pub open spec fn is_safe_char(c: char) -> bool {
    ('0' <= c <= '9') || ('a' <= c <= 'z') || ('A' <= c <= 'Z') || c == '_' || c == '-'
}

/// The file-name form of a test name: every unsafe character replaced by
/// `_`; `_` for an empty name.
pub open spec fn sanitized(name: Seq<char>) -> Seq<char> {
    if name.len() == 0 {
        seq!['_']
    } else {
        name.map_values(|c: char| if is_safe_char(c) { c } else { '_' })
    }
}

/// The file-name form of a test name.
pub fn sanitize(name: &str) -> (r: String)
    ensures
        r@ == sanitized(name@),
{
    let owned = name.to_owned();
    let cs = chars_of(&owned);
    let mut out: Vec<char> = Vec::new();
    let mut i: usize = 0;
    while i < cs.len()
        invariant
            i <= cs@.len(),
            cs@ == name@,
            out@ == name@.take(i as int).map_values(|c: char| if is_safe_char(c) { c } else { '_' }),
        decreases cs@.len() - i,
    {
        let c = cs[i];
        let safe = ('0' <= c && c <= '9') || ('a' <= c && c <= 'z') || ('A' <= c && c <= 'Z') || c == '_' || c == '-';
        if safe {
            out.push(c);
        } else {
            out.push('_');
        }
        i = i + 1;
        assert(out@ == name@.take(i as int).map_values(|c: char| if is_safe_char(c) { c } else { '_' }));
    }
    if out.len() == 0 {
        out.push('_');
    }
    assert(name@.take(name@.len() as int) == name@);
    string_from_chars(&out)
}

/// The seeds kept after recording `seed`: unchanged (`None`) when it is
/// already there; otherwise `seed` appended and the oldest seeds dropped
/// beyond [`MAX_SEEDS_PER_FILE`].
pub open spec fn seeds_after(seeds: Seq<u64>, seed: u64) -> Option<Seq<u64>> {
    if seeds.contains(seed) {
        None
    } else {
        let all = seeds.push(seed);
        Some(if all.len() > MAX_SEEDS_PER_FILE { all.skip(all.len() - MAX_SEEDS_PER_FILE) } else { all })
    }
}

/// Records `seed` among `seeds`; see [`seeds_after`].
pub fn append_seed_to(seeds: &Vec<u64>, seed: u64) -> (r: Option<Vec<u64>>)
    ensures
        match seeds_after(seeds@, seed) {
            None => r is None,
            Some(s) => r matches Some(v) && v@ == s,
        },
{
    let mut i: usize = 0;
    while i < seeds.len()
        invariant
            i <= seeds@.len(),
            forall|j: int| 0 <= j < i ==> seeds@[j] != seed,
        decreases seeds@.len() - i,
    {
        if seeds[i] == seed {
            return None;
        }
        i = i + 1;
    }
    let total = seeds.len();
    let drop: usize = if total >= MAX_SEEDS_PER_FILE { total - MAX_SEEDS_PER_FILE + 1 } else { 0 };
    let ghost all = seeds@.push(seed);
    let mut out: Vec<u64> = Vec::new();
    let mut k: usize = drop;
    while k < total
        invariant
            drop <= k <= total,
            total == seeds@.len(),
            all == seeds@.push(seed),
            out@ == all.subrange(drop as int, k as int),
        decreases total - k,
    {
        out.push(seeds[k]);
        k = k + 1;
        assert(out@ == all.subrange(drop as int, k as int));
    }
    out.push(seed);
    assert(out@ == all.skip(drop as int));
    Some(out)
}

/// The first line of a seed file.
pub open spec fn seed_file_header() -> Seq<char> {
    "# Regression seeds replayed by propcheck. Add or remove freely.\n"@
}

/// The lines of a seed file after the header: each seed in decimal.
pub open spec fn seed_lines(seeds: Seq<u64>) -> Seq<char>
    decreases seeds.len(),
{
    if seeds.len() == 0 {
        seq![]
    } else {
        seed_lines(seeds.drop_last()) + decimal(seeds.last() as nat) + seq!['\n']
    }
}

/// The content of a seed file holding `seeds`.
pub fn render_seeds(seeds: &Vec<u64>) -> (r: String)
    ensures
        r@ == seed_file_header() + seed_lines(seeds@),
{
    let mut s = String::new();
    string_push_str(&mut s, "# Regression seeds replayed by propcheck. Add or remove freely.\n");
    let mut i: usize = 0;
    while i < seeds.len()
        invariant
            i <= seeds@.len(),
            s@ == seed_file_header() + seed_lines(seeds@.take(i as int)),
        decreases seeds@.len() - i,
    {
        proof {
            assert(seeds@.take(i + 1).drop_last() == seeds@.take(i as int));
        }
        push_decimal(&mut s, seeds[i]);
        string_push(&mut s, '\n');
        i = i + 1;
    }
    assert(seeds@.take(seeds@.len() as int) == seeds@);
    s
}

/// A character `char::is_whitespace` accepts: Unicode `White_Space`.
pub open spec fn is_white_space(c: char) -> bool {
    ||| ('\u{9}' <= c <= '\u{d}')
    ||| c == ' '
    ||| c == '\u{85}'
    ||| c == '\u{a0}'
    ||| c == '\u{1680}'
    ||| ('\u{2000}' <= c <= '\u{200a}')
    ||| c == '\u{2028}'
    ||| c == '\u{2029}'
    ||| c == '\u{202f}'
    ||| c == '\u{205f}'
    ||| c == '\u{3000}'
}

/// `s` without its leading white space.
pub open spec fn trim_start(s: Seq<char>) -> Seq<char>
    decreases s.len(),
{
    if s.len() > 0 && is_white_space(s[0]) {
        trim_start(s.drop_first())
    } else {
        s
    }
}

/// `s` without its trailing white space.
pub open spec fn trim_end(s: Seq<char>) -> Seq<char>
    decreases s.len(),
{
    if s.len() > 0 && is_white_space(s.last()) {
        trim_end(s.drop_last())
    } else {
        s
    }
}

/// `s` without white space at either end (`str::trim`).
pub open spec fn trimmed(s: Seq<char>) -> Seq<char> {
    trim_end(trim_start(s))
}

/// An ASCII decimal digit.
pub open spec fn is_digit(c: char) -> bool {
    '0' <= c <= '9'
}

/// The number the decimal digits `s` spell (`0` for none).
pub open spec fn digits_value(s: Seq<char>) -> nat
    decreases s.len(),
{
    if s.len() == 0 {
        0
    } else {
        digits_value(s.drop_last()) * 10 + (s.last() as nat - '0' as nat) as nat
    }
}

/// `s` without a leading `+`.
pub open spec fn unsigned_body(s: Seq<char>) -> Seq<char> {
    if s.len() > 0 && s[0] == '+' {
        s.drop_first()
    } else {
        s
    }
}

/// Every character of `s` is a decimal digit.
pub open spec fn all_digits(s: Seq<char>) -> bool {
    forall|i: int| 0 <= i < s.len() ==> is_digit(#[trigger] s[i])
}

/// What `str::parse::<u64>` gives for `s`: an optional `+`, then at least
/// one decimal digit and nothing else, of a value that fits in `u64`.
pub open spec fn parsed_u64(s: Seq<char>) -> Option<u64> {
    let body = unsigned_body(s);
    if body.len() > 0 && all_digits(body) && digits_value(body) <= u64::MAX {
        Some(digits_value(body) as u64)
    } else {
        None
    }
}

/// The seed a line of a seed file holds: none for a blank line or a
/// comment (`#` first after trimming), or a line that is no number.
pub open spec fn seed_of_line(line: Seq<char>) -> Option<u64> {
    let t = trimmed(line);
    if t.len() == 0 || t[0] == '#' {
        None
    } else {
        parsed_u64(t)
    }
}

/// The pieces of `text` between line breaks, in order; a text that ends
/// with a line break ends with an empty piece.
pub open spec fn lines_of(text: Seq<char>) -> Seq<Seq<char>>
    decreases text.len(),
{
    if text.len() == 0 {
        seq![seq![]]
    } else if text.last() == '\n' {
        lines_of(text.drop_last()).push(seq![])
    } else {
        let ls = lines_of(text.drop_last());
        ls.update(ls.len() - 1, ls.last().push(text.last()))
    }
}

/// The seeds that the lines `lines` hold, each kept at its first
/// occurrence.
pub open spec fn seeds_in(lines: Seq<Seq<char>>) -> Seq<u64>
    decreases lines.len(),
{
    if lines.len() == 0 {
        seq![]
    } else {
        let before = seeds_in(lines.drop_last());
        match seed_of_line(lines.last()) {
            Some(s) => if before.contains(s) {
                before
            } else {
                before.push(s)
            },
            None => before,
        }
    }
}

/// The seeds a seed file with content `text` holds, in file order, each
/// once.
pub open spec fn seeds_read(text: Seq<char>) -> Seq<u64> {
    seeds_in(lines_of(text))
}

/// `char::is_whitespace`.
fn white_space(c: char) -> (r: bool)
    ensures
        r == is_white_space(c),
{
    ('\u{9}' <= c && c <= '\u{d}') || c == ' ' || c == '\u{85}' || c == '\u{a0}' || c == '\u{1680}'
        || ('\u{2000}' <= c && c <= '\u{200a}') || c == '\u{2028}' || c == '\u{2029}' || c
        == '\u{202f}' || c == '\u{205f}' || c == '\u{3000}'
}

proof fn lemma_trim_start_skip(s: Seq<char>, k: int)
    requires
        0 <= k <= s.len(),
        forall|j: int| 0 <= j < k ==> is_white_space(#[trigger] s[j]),
    ensures
        trim_start(s) == trim_start(s.skip(k)),
    decreases k,
{
    if k == 0 {
        assert(s.skip(0) =~= s);
    } else {
        assert(s.len() > 0 && is_white_space(s[0]));
        assert(s.drop_first().skip(k - 1) == s.skip(k));
        assert forall|j: int| 0 <= j < k - 1 implies is_white_space(#[trigger] s.drop_first()[j]) by {
            assert(s.drop_first()[j] == s[j + 1]);
        }
        lemma_trim_start_skip(s.drop_first(), k - 1);
    }
}

proof fn lemma_trim_end_take(s: Seq<char>, k: int)
    requires
        0 <= k <= s.len(),
        forall|j: int| k <= j < s.len() ==> is_white_space(#[trigger] s[j]),
    ensures
        trim_end(s) == trim_end(s.take(k)),
    decreases s.len() - k,
{
    if k == s.len() {
        assert(s.take(k) =~= s);
    } else {
        assert(is_white_space(s.last()));
        assert(s.drop_last().take(k) == s.take(k));
        assert forall|j: int| k <= j < s.drop_last().len() implies is_white_space(#[trigger] s.drop_last()[j]) by {
            assert(s.drop_last()[j] == s[j]);
        }
        lemma_trim_end_take(s.drop_last(), k);
    }
}

/// The value of the digits of `s` from `from` to `to`, where they all are
/// digits and the value fits: `None` otherwise.
fn digits_u64(s: &Vec<char>, from: usize, to: usize) -> (r: Option<u64>)
    requires
        from <= to <= s@.len(),
    ensures
        ({
            let body = s@.subrange(from as int, to as int);
            match r {
                Some(v) => all_digits(body) && v == digits_value(body),
                None => !all_digits(body) || digits_value(body) > u64::MAX,
            }
        }),
{
    let ghost body = s@.subrange(from as int, to as int);
    let mut v: u64 = 0;
    let mut big = false;
    let mut k: usize = from;
    while k < to
        invariant
            from <= k <= to <= s@.len(),
            body == s@.subrange(from as int, to as int),
            forall|i: int| 0 <= i < k - from ==> is_digit(#[trigger] body[i]),
            !big ==> v == digits_value(body.take(k - from)),
            big ==> digits_value(body.take(k - from)) > u64::MAX,
        decreases to - k,
    {
        let c = s[k];
        if !('0' <= c && c <= '9') {
            assert(body[k - from] == c);
            return None;
        }
        let d = (c as u32 - '0' as u32) as u64;
        proof {
            let p = body.take(k - from + 1);
            assert(p.drop_last() == body.take(k - from));
            assert(p.last() == c);
            assert(digits_value(p) == digits_value(body.take(k - from)) * 10 + d);
        }
        if !big {
            match v.checked_mul(10) {
                Some(t) => match t.checked_add(d) {
                    Some(u) => {
                        v = u;
                    },
                    None => {
                        big = true;
                    },
                },
                None => {
                    big = true;
                },
            }
        }
        k = k + 1;
    }
    assert(body.take(to - from) == body);
    if big {
        None
    } else {
        Some(v)
    }
}

/// Where the text of `line` begins and ends once white space is trimmed
/// from both ends.
pub fn trim_bounds(line: &Vec<char>) -> (r: (usize, usize))
    ensures
        r.0 <= r.1 <= line@.len(),
        line@.subrange(r.0 as int, r.1 as int) == trimmed(line@),
{
    let n = line.len();
    let mut lo: usize = 0;
    while lo < n && white_space(line[lo])
        invariant
            lo <= n == line@.len(),
            forall|j: int| 0 <= j < lo ==> is_white_space(#[trigger] line@[j]),
        decreases n - lo,
    {
        lo = lo + 1;
    }
    proof {
        lemma_trim_start_skip(line@, lo as int);
        if lo < n {
            assert(!is_white_space(line@.skip(lo as int)[0]));
        }
        assert(trim_start(line@) == line@.skip(lo as int));
    }
    let ghost ts = line@.skip(lo as int);
    let mut hi: usize = n;
    while hi > lo && white_space(line[hi - 1])
        invariant
            lo <= hi <= n == line@.len(),
            ts == line@.skip(lo as int),
            forall|j: int| hi - lo <= j < ts.len() ==> is_white_space(#[trigger] ts[j]),
        decreases hi,
    {
        hi = hi - 1;
    }
    proof {
        lemma_trim_end_take(ts, hi - lo);
        if hi > lo {
            assert(ts.take(hi - lo).last() == line@[hi - 1]);
        }
        assert(trim_end(ts) == ts.take(hi - lo));
        assert(ts.take(hi - lo) == line@.subrange(lo as int, hi as int));
    }
    (lo, hi)
}

/// The seed the line `line` holds; see [`seed_of_line`].
pub fn seed_from_line(line: &Vec<char>) -> (r: Option<u64>)
    ensures
        r == seed_of_line(line@),
{
    let (lo, hi) = trim_bounds(line);
    let ghost t = line@.subrange(lo as int, hi as int);
    assert(trimmed(line@) == t);
    if hi == lo {
        return None;
    }
    if line[lo] == '#' {
        return None;
    }
    let start: usize = if line[lo] == '+' { lo + 1 } else { lo };
    proof {
        if line@[lo as int] == '+' {
            assert(t.drop_first() == line@.subrange(start as int, hi as int));
        } else {
            assert(t == line@.subrange(start as int, hi as int));
        }
    }
    if start == hi {
        return None;
    }
    let r = digits_u64(line, start, hi);
    proof {
        assert(unsigned_body(t) == line@.subrange(start as int, hi as int));
        assert(t.len() != 0 && t[0] != '#');
    }
    r
}

/// Whether `x` occurs in `seeds`.
fn holds_seed(seeds: &Vec<u64>, x: u64) -> (r: bool)
    ensures
        r == seeds@.contains(x),
{
    let mut i: usize = 0;
    while i < seeds.len()
        invariant
            i <= seeds@.len(),
            forall|j: int| 0 <= j < i ==> seeds@[j] != x,
        decreases seeds@.len() - i,
    {
        if seeds[i] == x {
            assert(seeds@[i as int] == x);
            return true;
        }
        i = i + 1;
    }
    false
}

/// Adds `seed`, if any, to `seeds` unless it is already there.
fn add_seed(seeds: &mut Vec<u64>, seed: Option<u64>)
    ensures
        final(seeds)@ == (match seed {
            Some(x) => if old(seeds)@.contains(x) {
                old(seeds)@
            } else {
                old(seeds)@.push(x)
            },
            None => old(seeds)@,
        }),
{
    if let Some(x) = seed {
        if !holds_seed(seeds, x) {
            seeds.push(x);
        }
    }
}

/// The seeds in the content `text` of a seed file: each line trimmed,
/// blank lines and `#` comments skipped, lines that are no number ignored,
/// and each seed kept at its first occurrence.
pub fn parse_seeds(text: &str) -> (r: Vec<u64>)
    ensures
        r@ == seeds_read(text@),
{
    let owned = text.to_owned();
    let cs = chars_of(&owned);
    let mut seeds: Vec<u64> = Vec::new();
    let mut line: Vec<char> = Vec::new();
    let ghost mut done: Seq<Seq<char>> = seq![];
    let mut i: usize = 0;
    assert(cs@.take(0) =~= Seq::<char>::empty());
    while i < cs.len()
        invariant
            i <= cs@.len(),
            cs@ == text@,
            lines_of(cs@.take(i as int)) == done.push(line@),
            seeds@ == seeds_in(done),
        decreases cs@.len() - i,
    {
        let c = cs[i];
        proof {
            assert(cs@.take(i + 1).drop_last() == cs@.take(i as int));
            assert(cs@.take(i + 1).last() == c);
        }
        if c == '\n' {
            let ghost old_done = done;
            let ghost old_line = line@;
            let seed = seed_from_line(&line);
            add_seed(&mut seeds, seed);
            line = Vec::new();
            proof {
                done = old_done.push(old_line);
                assert(done.drop_last() == old_done);
                assert(done.last() == old_line);
                assert(lines_of(cs@.take(i + 1)) == done.push(line@));
            }
        } else {
            let ghost before = done.push(line@);
            line.push(c);
            proof {
                assert(before.update(before.len() - 1, before.last().push(c)) == done.push(line@));
            }
        }
        i = i + 1;
    }
    assert(cs@.take(cs@.len() as int) == cs@);
    let seed = seed_from_line(&line);
    add_seed(&mut seeds, seed);
    proof {
        let all = done.push(line@);
        assert(all.drop_last() == done);
        assert(all.last() == line@);
    }
    seeds
}

/// Each seed in decimal, one per line.
pub open spec fn decimal_lines(seeds: Seq<u64>) -> Seq<Seq<char>> {
    seeds.map_values(|x: u64| decimal(x as nat))
}

proof fn lemma_digit_char(d: nat)
    requires
        d < 10,
    ensures
        is_digit(digit_char(d)),
        digit_char(d) as nat - '0' as nat == d,
{
}

proof fn lemma_decimal_digits(n: nat)
    ensures
        decimal(n).len() > 0,
        all_digits(decimal(n)),
        digits_value(decimal(n)) == n,
    decreases n,
{
    if n < 10 {
        lemma_digit_char(n);
        let d = decimal(n);
        assert(d == seq![digit_char(n)]);
        assert(d.drop_last() =~= Seq::<char>::empty());
        assert(d.last() == digit_char(n));
        assert(digits_value(d.drop_last()) == 0);
        assert(digits_value(d) == digits_value(d.drop_last()) * 10 + (d.last() as nat - '0' as nat) as nat);
    } else {
        lemma_decimal_digits(n / 10);
        lemma_digit_char(n % 10);
        let d = decimal(n);
        assert(d.drop_last() == decimal(n / 10));
        assert(d.last() == digit_char(n % 10));
        assert(n / 10 * 10 + n % 10 == n) by (nonlinear_arith);
        assert(digits_value(d) == digits_value(decimal(n / 10)) * 10 + (d.last() as nat - '0' as nat) as nat);
        assert forall|i: int| 0 <= i < d.len() implies is_digit(#[trigger] d[i]) by {
            if i < d.len() - 1 {
                assert(d[i] == decimal(n / 10)[i]);
            }
        }
    }
}

/// A line holding `n` in decimal holds the seed `n`.
proof fn lemma_seed_of_decimal(n: u64)
    ensures
        seed_of_line(decimal(n as nat)) == Some(n),
{
    let d = decimal(n as nat);
    lemma_decimal_digits(n as nat);
    assert(is_digit(d[0]));
    assert(is_digit(d.last()));
    assert(trim_start(d) == d);
    assert(trim_end(d) == d);
    assert(unsigned_body(d) == d);
}

/// Appending characters other than a line break extends the last line.
proof fn lemma_lines_append_word(t: Seq<char>, w: Seq<char>)
    requires
        forall|i: int| 0 <= i < w.len() ==> #[trigger] w[i] != '\n',
    ensures
        lines_of(t).len() >= 1,
        lines_of(t + w) == lines_of(t).update(lines_of(t).len() - 1, lines_of(t).last() + w),
    decreases w.len(),
{
    lemma_lines_nonempty(t);
    if w.len() == 0 {
        assert(t + w =~= t);
        assert(lines_of(t).last() + w =~= lines_of(t).last());
        assert(lines_of(t).update(lines_of(t).len() - 1, lines_of(t).last()) =~= lines_of(t));
    } else {
        let w0 = w.drop_last();
        assert forall|i: int| 0 <= i < w0.len() implies #[trigger] w0[i] != '\n' by {
            assert(w0[i] == w[i]);
        }
        lemma_lines_append_word(t, w0);
        assert((t + w).drop_last() =~= t + w0);
        assert((t + w).last() == w.last());
        assert(w.last() != '\n');
        let ls = lines_of(t + w0);
        assert(ls.last() == lines_of(t).last() + w0);
        assert(ls.last().push(w.last()) =~= lines_of(t).last() + w);
        assert(ls.update(ls.len() - 1, ls.last().push(w.last())) =~= lines_of(t).update(
            lines_of(t).len() - 1,
            lines_of(t).last() + w,
        ));
    }
}

proof fn lemma_lines_nonempty(t: Seq<char>)
    ensures
        lines_of(t).len() >= 1,
    decreases t.len(),
{
    if t.len() > 0 {
        lemma_lines_nonempty(t.drop_last());
    }
}

/// The seeds of lines that end with a blank one are those of the lines
/// before it.
proof fn lemma_seeds_in_blank(ls: Seq<Seq<char>>)
    ensures
        seeds_in(ls.push(seq![])) == seeds_in(ls),
{
    assert(ls.push(seq![]).drop_last() == ls);
    assert(trimmed(seq![]) == Seq::<char>::empty());
}

/// The first line of a seed file holds no seed.
proof fn lemma_header_lines()
    ensures
        lines_of(seed_file_header()).len() == 2,
        seed_of_line(lines_of(seed_file_header())[0]) is None,
        lines_of(seed_file_header())[1] == Seq::<char>::empty(),
{
    reveal_strlit("# Regression seeds replayed by propcheck. Add or remove freely.\n");
    let h = seed_file_header();
    let w = h.drop_last();
    assert(h.last() == '\n');
    assert forall|i: int| 0 <= i < w.len() implies #[trigger] w[i] != '\n' by {
        assert(w[i] == h[i]);
    }
    lemma_lines_append_word(Seq::<char>::empty(), w);
    assert(Seq::<char>::empty() + w =~= w);
    assert(lines_of(Seq::<char>::empty()) == seq![Seq::<char>::empty()]);
    assert(Seq::<char>::empty() + w =~= w);
    assert(lines_of(w) =~= seq![w]);
    assert(lines_of(h) == lines_of(w).push(seq![]));
    assert(trim_start(w) == w);
    assert(trim_end(w) == w);
    assert(trimmed(w)[0] == '#');
}

/// The lines of a seed file holding `seeds`: the header, each seed in
/// decimal, and the empty piece after the last line break.
proof fn lemma_rendered_lines(seeds: Seq<u64>)
    ensures
        lines_of(seed_file_header() + seed_lines(seeds)) == seq![lines_of(seed_file_header())[0]]
            + decimal_lines(seeds) + seq![Seq::<char>::empty()],
    decreases seeds.len(),
{
    lemma_header_lines();
    let h = seed_file_header();
    if seeds.len() == 0 {
        assert(seed_lines(seeds) =~= Seq::<char>::empty());
        assert(h + seed_lines(seeds) =~= h);
        assert(lines_of(h) =~= seq![lines_of(h)[0]] + decimal_lines(seeds) + seq![
            Seq::<char>::empty(),
        ]);
    } else {
        let s0 = seeds.drop_last();
        let x = seeds.last();
        lemma_rendered_lines(s0);
        let t = h + seed_lines(s0);
        let d = decimal(x as nat);
        lemma_decimal_digits(x as nat);
        assert forall|i: int| 0 <= i < d.len() implies #[trigger] d[i] != '\n' by {
            assert(is_digit(d[i]));
        }
        lemma_lines_append_word(t, d);
        assert(h + seed_lines(seeds) =~= (t + d).push('\n'));
        assert((t + d).push('\n').drop_last() =~= t + d);
        let lt = lines_of(t);
        assert(lt.last() == Seq::<char>::empty());
        assert(lt.last() + d =~= d);
        let m0 = decimal_lines(s0);
        let m = decimal_lines(seeds);
        assert(m =~= m0.push(d));
        assert(lt.update(lt.len() - 1, d).push(seq![]) =~= seq![lines_of(h)[0]] + m + seq![
            Seq::<char>::empty(),
        ]);
    }
}

/// The seeds of the header line followed by the decimal lines of distinct
/// seeds are those seeds.
proof fn lemma_seeds_of_decimal_lines(h0: Seq<char>, seeds: Seq<u64>)
    requires
        seed_of_line(h0) is None,
        seeds.no_duplicates(),
    ensures
        seeds_in(seq![h0] + decimal_lines(seeds)) == seeds,
    decreases seeds.len(),
{
    let ls = seq![h0] + decimal_lines(seeds);
    if seeds.len() == 0 {
        assert(ls =~= seq![h0]);
        assert(ls.drop_last() =~= Seq::<Seq<char>>::empty());
        assert(ls.last() == h0);
        assert(seeds_in(ls.drop_last()) == Seq::<u64>::empty());
        assert(seeds_in(ls) == seeds_in(ls.drop_last()));
        assert(seeds =~= Seq::<u64>::empty());
    } else {
        let s0 = seeds.drop_last();
        let x = seeds.last();
        assert forall|a: int, b: int| 0 <= a < b < s0.len() implies s0[a] != s0[b] by {
            assert(s0[a] == seeds[a] && s0[b] == seeds[b]);
        }
        lemma_seeds_of_decimal_lines(h0, s0);
        assert(ls.drop_last() =~= seq![h0] + decimal_lines(s0));
        assert(ls.last() == decimal(x as nat));
        lemma_seed_of_decimal(x);
        assert(!s0.contains(x)) by {
            if s0.contains(x) {
                let j = choose|j: int| 0 <= j < s0.len() && s0[j] == x;
                assert(seeds[j] == seeds[seeds.len() - 1]);
            }
        }
        assert(seeds_in(ls.drop_last()) == s0);
        assert(seed_of_line(ls.last()) == Some(x));
        assert(seeds_in(ls) == s0.push(x));
        assert(s0.push(x) =~= seeds);
    }
}

/// What a seed file holding distinct seeds is read back as: those seeds, in
/// order.
pub proof fn law_rendered_seeds_read_back(seeds: Seq<u64>)
    requires
        seeds.no_duplicates(),
    ensures
        seeds_read(seed_file_header() + seed_lines(seeds)) == seeds,
{
    lemma_header_lines();
    lemma_rendered_lines(seeds);
    let h0 = lines_of(seed_file_header())[0];
    let body = seq![h0] + decimal_lines(seeds);
    assert(seq![h0] + decimal_lines(seeds) + seq![Seq::<char>::empty()] =~= body.push(
        seq![],
    ));
    lemma_seeds_in_blank(body);
    lemma_seeds_of_decimal_lines(h0, seeds);
}

} // verus!
