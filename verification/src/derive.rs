//! The item parsing and code generation behind `#[derive(Arbitrary)]` and
//! the `#[propcheck]` test attribute, over a token model of the item.
//!
//! The input is the item's tokens; the output is the source text of the
//! generated implementation or test, or an error message. Token text is
//! rendered with single spaces between tokens, which the compiler reads the
//! same as any other spacing.
use vstd::prelude::*;
use crate::text::{string_push, string_push_str};

verus! {

/// The delimiter of a token group.
#[derive(Debug, Clone, Copy, PartialEq, Eq, Structural)]
pub enum Delim {
    /// `( ... )`
    Parenthesis,
    /// `{ ... }`
    Brace,
    /// `[ ... ]`
    Bracket,
    /// No visible delimiter.
    Invisible,
}

/// Whether a punctuation character is joined to the token after it, as the
/// first character of `::` or `->`, or the quote of a lifetime, is.
#[derive(Debug, Clone, Copy, PartialEq, Eq, Structural)]
pub enum Spacing {
    /// Followed by a space in source text.
    Alone,
    /// Written directly against the next token.
    Joint,
}

/// One token of an item: an identifier or keyword, a punctuation character,
/// a literal as written, or a delimited group of tokens.
#[derive(Debug)]
pub enum Token {
    /// An identifier or keyword.
    Ident(String),
    /// A punctuation character and how it joins the next token.
    Punct(char, Spacing),
    /// A literal, as written in the source.
    Literal(String),
    /// A delimited group.
    Group(Delim, Vec<Token>),
}

/// The opening text of a delimiter.
pub open spec fn open_text(d: Delim) -> Seq<char> {
    match d {
        Delim::Parenthesis => seq!['('],
        Delim::Brace => seq!['{'],
        Delim::Bracket => seq!['['],
        Delim::Invisible => seq![],
    }
}

/// The closing text of a delimiter.
pub open spec fn close_text(d: Delim) -> Seq<char> {
    match d {
        Delim::Parenthesis => seq![')'],
        Delim::Brace => seq!['}'],
        Delim::Bracket => seq![']'],
        Delim::Invisible => seq![],
    }
}

/// The source text of a token.
pub open spec fn token_text(t: Token) -> Seq<char>
    decreases t, 1nat,
{
    match t {
        Token::Ident(s) => s@,
        Token::Punct(c, _) => seq![c],
        Token::Literal(s) => s@,
        Token::Group(d, v) => {
            proof {
                assert(decreases_to!(t => v));
                assert(decreases_to!(v => v@));
            }
            open_text(d) + tokens_text(v@) + close_text(d)
        },
    }
}

/// What stands between a token and the next one in source text: nothing
/// after a joint punctuation character, a single space otherwise.
pub open spec fn gap_after(t: Token) -> Seq<char> {
    match t {
        Token::Punct(_, Spacing::Joint) => seq![],
        _ => seq![' '],
    }
}

/// The source text of tokens, each separated from the next by
/// [`gap_after`].
pub open spec fn tokens_text(ts: Seq<Token>) -> Seq<char>
    decreases ts, 0nat,
{
    if ts.len() == 0 {
        seq![]
    } else if ts.len() == 1 {
        token_text(ts[0])
    } else {
        proof {
            assert(decreases_to!(ts => ts.drop_last()));
        }
        tokens_text(ts.drop_last()) + gap_after(ts[ts.len() - 2]) + token_text(ts.last())
    }
}

/// The source text of the tokens of `ts` from `lo` up to `hi`.
pub open spec fn range_text(ts: Seq<Token>, lo: int, hi: int) -> Seq<char> {
    tokens_text(ts.subrange(lo, hi))
}

/// Whether `t` is the identifier or keyword `w`.
pub open spec fn ident_is(t: Token, w: Seq<char>) -> bool {
    t matches Token::Ident(s) && s@ == w
}

/// Whether `t` is the punctuation character `c`.
pub open spec fn punct_is(t: Token, c: char) -> bool {
    t matches Token::Punct(d, _) && d == c
}

/// Whether `t` is a group with delimiter `d`.
pub open spec fn group_is(t: Token, d: Delim) -> bool {
    t matches Token::Group(e, _) && e == d
}

/// Whether `t` is the identifier or keyword `w`.
pub fn is_ident(t: &Token, w: &str) -> (r: bool)
    ensures
        r == ident_is(*t, w@),
{
    match t {
        Token::Ident(s) => {
            let o = String::from_str(w);
            *s == o
        },
        _ => false,
    }
}

/// Whether `t` is the punctuation character `c`.
pub fn is_punct(t: &Token, c: char) -> (r: bool)
    ensures
        r == punct_is(*t, c),
{
    match t {
        Token::Punct(d, _) => *d == c,
        _ => false,
    }
}

/// Whether `t` is a group with delimiter `d`.
pub fn is_group(t: &Token, d: Delim) -> (r: bool)
    ensures
        r == group_is(*t, d),
{
    match t {
        Token::Group(e, _) => *e == d,
        _ => false,
    }
}

/// Appends the source text of `t`.
pub fn push_token_text(out: &mut String, t: &Token)
    ensures
        final(out)@ == old(out)@ + token_text(*t),
    decreases t, 1nat,
{
    match t {
        Token::Ident(s) => string_push_str(out, s.as_str()),
        Token::Punct(c, _) => string_push(out, *c),
        Token::Literal(s) => string_push_str(out, s.as_str()),
        Token::Group(d, v) => {
            let ghost start = out@;
            match d {
                Delim::Parenthesis => string_push(out, '('),
                Delim::Brace => string_push(out, '{'),
                Delim::Bracket => string_push(out, '['),
                Delim::Invisible => {},
            }
            let ghost mid = out@;
            assert(mid == start + open_text(*d));
            proof {
                assert(decreases_to!(t => v));
            }
            push_range_text(out, v, 0, v.len());
            assert(v@.subrange(0, v@.len() as int) == v@);
            let ghost inner = out@;
            match d {
                Delim::Parenthesis => string_push(out, ')'),
                Delim::Brace => string_push(out, '}'),
                Delim::Bracket => string_push(out, ']'),
                Delim::Invisible => {},
            }
            assert(out@ == inner + close_text(*d));
            assert(out@ == start + (open_text(*d) + tokens_text(v@) + close_text(*d)));
        },
    }
}

/// Appends the source text of the tokens of `ts` from `lo` up to `hi`.
pub fn push_range_text(out: &mut String, ts: &Vec<Token>, lo: usize, hi: usize)
    requires
        lo <= hi <= ts@.len(),
    ensures
        final(out)@ == old(out)@ + range_text(ts@, lo as int, hi as int),
    decreases ts, 0nat,
{
    let ghost start = out@;
    let mut i: usize = lo;
    while i < hi
        invariant
            lo <= i <= hi <= ts@.len(),
            out@ == start + range_text(ts@, lo as int, i as int),
        decreases hi - i,
    {
        let ghost before = out@;
        if i > lo && !is_joint(&ts[i - 1]) {
            string_push(out, ' ');
        }
        assert(out@ == before + (if i > lo { gap_after(ts@[i - 1]) } else { seq![] }));
        proof {
            assert(decreases_to!(ts => ts[i as int]));
        }
        push_token_text(out, &ts[i]);
        proof {
            let s = ts@.subrange(lo as int, i + 1);
            assert(s.drop_last() == ts@.subrange(lo as int, i as int));
            assert(s.last() == ts@[i as int]);
            if i > lo {
                assert(s[s.len() - 2] == ts@[i - 1]);
            } else {
                assert(ts@.subrange(lo as int, i as int).len() == 0);
            }
        }
        i = i + 1;
    }
}

/// Whether `t` is a joint punctuation character.
fn is_joint(t: &Token) -> (r: bool)
    ensures
        r == (gap_after(*t) == Seq::<char>::empty()),
{
    match t {
        Token::Punct(_, Spacing::Joint) => true,
        _ => {
            assert(gap_after(*t).len() == 1);
            false
        },
    }
}

/// The source text of the tokens of `ts` from `lo` up to `hi`.
pub fn range_string(ts: &Vec<Token>, lo: usize, hi: usize) -> (r: String)
    requires
        lo <= hi <= ts@.len(),
    ensures
        r@ == range_text(ts@, lo as int, hi as int),
{
    let mut out = String::new();
    push_range_text(&mut out, ts, lo, hi);
    out
}

/// The source text of a token.
pub fn token_string(t: &Token) -> (r: String)
    ensures
        r@ == token_text(*t),
{
    let mut out = String::new();
    push_token_text(&mut out, t);
    out
}

} // verus!
