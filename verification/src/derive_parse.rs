//! Reading the parts of an item that `#[derive(Arbitrary)]` and the
//! `#[propcheck]` attribute need: attributes, visibility, generics, `where`
//! clauses, fields and enum variants.
use vstd::prelude::*;
use crate::derive::{
    Delim, Token, group_is, ident_is, is_group, is_ident, is_punct, punct_is, range_string,
    range_text, token_string, token_text,
};
use crate::regression::{trim_bounds, trimmed};
use crate::text::{
    chars_of, join_strings, joined, lemma_string_views_push, replace_all, replaced,
    string_from_chars, string_push_str, string_views,
};

verus! {

/// A field (or a parameter of a test function): its name (empty for a
/// tuple field), its type as written, and the strategy expression given by
/// `#[arbitrary(strategy = ...)]`, if any.
#[derive(Debug)]
pub struct FieldInfo {
    /// The field's name; empty for a tuple field.
    pub name: String,
    /// The field's type as written.
    pub ty: String,
    /// The strategy expression that generates the field, if one was given.
    pub strategy: Option<String>,
}

/// What a [`FieldInfo`] holds, as text.
#[verifier::ext_equal]
pub struct FieldView {
    /// The field's name; empty for a tuple field.
    pub name: Seq<char>,
    /// The field's type as written.
    pub ty: Seq<char>,
    /// The strategy expression, if one was given.
    pub strategy: Option<Seq<char>>,
}

/// The text an optional string holds.
pub open spec fn opt_text(o: Option<String>) -> Option<Seq<char>> {
    match o {
        Some(s) => Some(s@),
        None => None,
    }
}

impl View for FieldInfo {
    type V = FieldView;

    open spec fn view(&self) -> FieldView {
        FieldView { name: self.name@, ty: self.ty@, strategy: opt_text(self.strategy) }
    }
}

/// The views of fields.
pub open spec fn field_views(v: Seq<FieldInfo>) -> Seq<FieldView> {
    v.map_values(|f: FieldInfo| f@)
}

/// The fields of a struct or an enum variant.
#[derive(Debug)]
pub enum Fields {
    /// `{ a: T, b: U }`
    Named(Vec<FieldInfo>),
    /// `(T, U)`
    Unnamed(Vec<FieldInfo>),
    /// No fields.
    Unit,
}

/// What a [`Fields`] holds, as text.
#[verifier::ext_equal]
pub enum FieldsView {
    /// Named fields.
    Named(Seq<FieldView>),
    /// Tuple fields.
    Unnamed(Seq<FieldView>),
    /// No fields.
    Unit,
}

impl View for Fields {
    type V = FieldsView;

    open spec fn view(&self) -> FieldsView {
        match self {
            Fields::Named(v) => FieldsView::Named(field_views(v@)),
            Fields::Unnamed(v) => FieldsView::Unnamed(field_views(v@)),
            Fields::Unit => FieldsView::Unit,
        }
    }
}

/// The text of an identifier token (empty for any other token).
pub open spec fn ident_text(t: Token) -> Seq<char> {
    match t {
        Token::Ident(s) => s@,
        _ => seq![],
    }
}

/// The message for an unexpected token: `prefix`, the token's text, and a
/// closing backquote.
pub open spec fn found_message(prefix: Seq<char>, t: Token) -> Seq<char> {
    prefix + token_text(t) + "`"@
}

/// Builds the message for an unexpected token; see [`found_message`].
pub fn found(prefix: &str, t: &Token) -> (r: String)
    ensures
        r@ == found_message(prefix@, *t),
{
    let mut m = String::from_str(prefix);
    let tt = token_string(t);
    string_push_str(&mut m, tt.as_str());
    string_push_str(&mut m, "`");
    m
}

/// Where the attributes (`#[...]`) and visibility (`pub`, `pub(...)`) that
/// start at `p` end.
pub open spec fn skip_attrs(ts: Seq<Token>, p: int) -> int
    decreases ts.len() - p,
{
    if 0 <= p < ts.len() && punct_is(ts[p], '#') {
        if p + 1 < ts.len() && ts[p + 1] is Group {
            skip_attrs(ts, p + 2)
        } else {
            skip_attrs(ts, p + 1)
        }
    } else if 0 <= p < ts.len() && ident_is(ts[p], "pub"@) {
        if p + 1 < ts.len() && group_is(ts[p + 1], Delim::Parenthesis) {
            skip_attrs(ts, p + 2)
        } else {
            skip_attrs(ts, p + 1)
        }
    } else {
        p
    }
}

/// Whether `t` is a group of any delimiter.
fn is_any_group(t: &Token) -> (r: bool)
    ensures
        r == (*t is Group),
{
    match t {
        Token::Group(_, _) => true,
        _ => false,
    }
}

/// Skips the attributes and visibility that start at `pos`; see
/// [`skip_attrs`].
pub fn skip_attrs_and_visibility(ts: &Vec<Token>, pos: usize) -> (r: usize)
    requires
        pos <= ts@.len(),
    ensures
        r == skip_attrs(ts@, pos as int),
        pos <= r <= ts@.len(),
{
    let mut p = pos;
    loop
        invariant
            pos <= p <= ts@.len(),
            skip_attrs(ts@, p as int) == skip_attrs(ts@, pos as int),
        ensures
            pos <= p <= ts@.len(),
            p == skip_attrs(ts@, pos as int),
        decreases ts@.len() - p,
    {
        if p < ts.len() && is_punct(&ts[p], '#') {
            if p + 1 < ts.len() && is_any_group(&ts[p + 1]) {
                p = p + 2;
            } else {
                p = p + 1;
            }
        } else if p < ts.len() && is_ident(&ts[p], "pub") {
            if p + 1 < ts.len() && is_group(&ts[p + 1], Delim::Parenthesis) {
                p = p + 2;
            } else {
                p = p + 1;
            }
        } else {
            break;
        }
    }
    p
}

/// A strategy expression given as a string literal loses its quotes, and
/// the escapes `\"` and `\\` in it are undone; any other text stays.
pub open spec fn unquoted(t: Seq<char>) -> Seq<char> {
    if t.len() >= 2 && t[0] == '"' && t.last() == '"' {
        replaced(
            replaced(t.subrange(1, t.len() - 1), seq!['\\', '"'], seq!['"']),
            seq!['\\', '\\'],
            seq!['\\'],
        )
    } else {
        t
    }
}

/// The strategy expression an attribute with contents `inner` gives, when
/// it has the form `arbitrary(strategy = <expr>)`.
pub open spec fn arbitrary_attr(inner: Seq<Token>) -> Option<Seq<char>> {
    if inner.len() >= 2 && ident_is(inner[0], "arbitrary"@) {
        match inner[1] {
            Token::Group(Delim::Parenthesis, g) => {
                let gs = g@;
                if gs.len() >= 2 && ident_is(gs[0], "strategy"@) && punct_is(gs[1], '=') {
                    Some(unquoted(trimmed(range_text(gs, 2, gs.len() as int))))
                } else {
                    None
                }
            },
            _ => None,
        }
    } else {
        None
    }
}

/// Reads `arbitrary(strategy = <expr>)` from the contents of an attribute;
/// see [`arbitrary_attr`].
pub fn try_parse_arbitrary_attr(inner: &Vec<Token>) -> (r: Option<String>)
    ensures
        opt_text(r) == arbitrary_attr(inner@),
{
    if inner.len() < 2 || !is_ident(&inner[0], "arbitrary") {
        return None;
    }
    match &inner[1] {
        Token::Group(Delim::Parenthesis, g) => {
            if g.len() < 2 || !is_ident(&g[0], "strategy") || !is_punct(&g[1], '=') {
                return None;
            }
            let text = range_string(g, 2, g.len());
            let cs = chars_of(&text);
            let (lo, hi) = trim_bounds(&cs);
            let ghost t = cs@.subrange(lo as int, hi as int);
            if hi - lo >= 2 && cs[lo] == '"' && cs[hi - 1] == '"' {
                let mut body: Vec<char> = Vec::new();
                let mut k: usize = lo + 1;
                while k < hi - 1
                    invariant
                        lo + 1 <= k <= hi - 1,
                        hi <= cs@.len(),
                        body@ == cs@.subrange(lo + 1, k as int),
                    decreases hi - 1 - k,
                {
                    body.push(cs[k]);
                    k = k + 1;
                }
                assert(body@ == t.subrange(1, t.len() - 1));
                let esc_quote = vec!['\\', '"'];
                let quote = vec!['"'];
                let esc_back = vec!['\\', '\\'];
                let back = vec!['\\'];
                let once = replace_all(&body, &esc_quote, &quote);
                let twice = replace_all(&once, &esc_back, &back);
                assert(esc_quote@ == seq!['\\', '"']);
                assert(quote@ == seq!['"']);
                assert(esc_back@ == seq!['\\', '\\']);
                assert(back@ == seq!['\\']);
                assert(t == trimmed(range_text(g@, 2, g@.len() as int)));
                assert(twice@ == unquoted(t));
                Some(string_from_chars(&twice))
            } else {
                let mut body: Vec<char> = Vec::new();
                let mut k: usize = lo;
                while k < hi
                    invariant
                        lo <= k <= hi <= cs@.len(),
                        body@ == cs@.subrange(lo as int, k as int),
                    decreases hi - k,
                {
                    body.push(cs[k]);
                    k = k + 1;
                }
                assert(body@ == t);
                assert(unquoted(t) == t);
                Some(string_from_chars(&body))
            }
        },
        _ => None,
    }
}

/// The attributes of a field that matter here.
#[derive(Debug)]
pub struct FieldAttrs {
    /// The strategy expression from `#[arbitrary(strategy = ...)]`.
    pub strategy: Option<String>,
}

/// The strategy (`acc` if no attribute gives one; the last one that does
/// otherwise) and the end of the attributes and visibility that start at
/// `p`.
pub open spec fn field_attrs(ts: Seq<Token>, p: int, acc: Option<Seq<char>>) -> (
    Option<Seq<char>>,
    int,
)
    decreases ts.len() - p,
{
    if 0 <= p < ts.len() && punct_is(ts[p], '#') {
        if p + 1 < ts.len() && ts[p + 1] is Group {
            let found = match ts[p + 1] {
                Token::Group(_, g) => arbitrary_attr(g@),
                _ => None,
            };
            field_attrs(ts, p + 2, if found is Some { found } else { acc })
        } else {
            field_attrs(ts, p + 1, acc)
        }
    } else if 0 <= p < ts.len() && ident_is(ts[p], "pub"@) {
        if p + 1 < ts.len() && group_is(ts[p + 1], Delim::Parenthesis) {
            field_attrs(ts, p + 2, acc)
        } else {
            field_attrs(ts, p + 1, acc)
        }
    } else {
        (acc, p)
    }
}

/// The attributes and visibility of a field never run past the tokens.
pub proof fn lemma_field_attrs_bounds(ts: Seq<Token>, p: int, acc: Option<Seq<char>>)
    requires
        0 <= p <= ts.len(),
    ensures
        p <= field_attrs(ts, p, acc).1 <= ts.len(),
    decreases ts.len() - p,
{
    if 0 <= p < ts.len() && punct_is(ts[p], '#') {
        if p + 1 < ts.len() && ts[p + 1] is Group {
            let found = match ts[p + 1] {
                Token::Group(_, g) => arbitrary_attr(g@),
                _ => None,
            };
            lemma_field_attrs_bounds(ts, p + 2, if found is Some { found } else { acc });
        } else {
            lemma_field_attrs_bounds(ts, p + 1, acc);
        }
    } else if 0 <= p < ts.len() && ident_is(ts[p], "pub"@) {
        if p + 1 < ts.len() && group_is(ts[p + 1], Delim::Parenthesis) {
            lemma_field_attrs_bounds(ts, p + 2, acc);
        } else {
            lemma_field_attrs_bounds(ts, p + 1, acc);
        }
    }
}

/// Reads the attributes and visibility of a field that start at `pos`;
/// see [`field_attrs`].
pub fn collect_field_attrs(ts: &Vec<Token>, pos: usize) -> (r: (FieldAttrs, usize))
    requires
        pos <= ts@.len(),
    ensures
        (opt_text(r.0.strategy), r.1 as int) == field_attrs(ts@, pos as int, None),
        pos <= r.1 <= ts@.len(),
{
    let mut attrs = FieldAttrs { strategy: None };
    let mut p = pos;
    loop
        invariant
            pos <= p <= ts@.len(),
            field_attrs(ts@, p as int, opt_text(attrs.strategy)) == field_attrs(ts@, pos as int, None),
        ensures
            pos <= p <= ts@.len(),
            (opt_text(attrs.strategy), p as int) == field_attrs(ts@, pos as int, None),
        decreases ts@.len() - p,
    {
        if p < ts.len() && is_punct(&ts[p], '#') {
            if p + 1 < ts.len() {
                match &ts[p + 1] {
                    Token::Group(_, g) => {
                        let found = try_parse_arbitrary_attr(g);
                        if found.is_some() {
                            attrs.strategy = found;
                        }
                        p = p + 2;
                    },
                    _ => {
                        p = p + 1;
                    },
                }
            } else {
                p = p + 1;
            }
        } else if p < ts.len() && is_ident(&ts[p], "pub") {
            if p + 1 < ts.len() && is_group(&ts[p + 1], Delim::Parenthesis) {
                p = p + 2;
            } else {
                p = p + 1;
            }
        } else {
            break;
        }
    }
    (attrs, p)
}

/// Where the tokens from `i` up to the next `,` outside `<...>` end, and
/// where reading goes on after that comma; `depth` counts the `<` not yet
/// closed by a `>`.
pub open spec fn until_comma(ts: Seq<Token>, i: int, depth: int) -> (int, int)
    decreases ts.len() - i,
{
    if i < 0 || i >= ts.len() {
        (i, i)
    } else if punct_is(ts[i], ',') && depth == 0 {
        (i, i + 1)
    } else {
        until_comma(
            ts,
            i + 1,
            if punct_is(ts[i], '<') {
                depth + 1
            } else if punct_is(ts[i], '>') {
                depth - 1
            } else {
                depth
            },
        )
    }
}

/// The tokens up to the next top-level comma lie within the tokens; the
/// comma, if there is one, is skipped.
pub proof fn lemma_until_comma_bounds(ts: Seq<Token>, i: int, depth: int)
    requires
        0 <= i <= ts.len(),
    ensures
        i <= until_comma(ts, i, depth).0 <= until_comma(ts, i, depth).1 <= ts.len(),
        until_comma(ts, i, depth).1 == until_comma(ts, i, depth).0
            || until_comma(ts, i, depth).1 == until_comma(ts, i, depth).0 + 1,
        until_comma(ts, i, depth).0 < ts.len() ==> until_comma(ts, i, depth).1 == until_comma(
            ts,
            i,
            depth,
        ).0 + 1,
    decreases ts.len() - i,
{
    if i < ts.len() && !(punct_is(ts[i], ',') && depth == 0) {
        lemma_until_comma_bounds(
            ts,
            i + 1,
            if punct_is(ts[i], '<') {
                depth + 1
            } else if punct_is(ts[i], '>') {
                depth - 1
            } else {
                depth
            },
        );
    }
}

/// Reads up to the next comma outside `<...>` from `pos`; see
/// [`until_comma`]. Returns where those tokens end and where reading goes
/// on.
pub fn collect_until_top_comma(ts: &Vec<Token>, pos: usize) -> (r: (usize, usize))
    requires
        pos <= ts@.len(),
    ensures
        (r.0 as int, r.1 as int) == until_comma(ts@, pos as int, 0),
        pos <= r.0 <= r.1 <= ts@.len(),
{
    let mut depth: i128 = 0;
    let mut i = pos;
    let n = ts.len();
    proof {
        lemma_until_comma_bounds(ts@, pos as int, 0);
    }
    while i < n
        invariant
            pos <= i <= ts@.len(),
            n == ts@.len(),
            -(i - pos) <= depth <= i - pos,
            until_comma(ts@, i as int, depth as int) == until_comma(ts@, pos as int, 0),
        decreases ts@.len() - i,
    {
        if is_punct(&ts[i], ',') && depth == 0 {
            return (i, i + 1);
        }
        if is_punct(&ts[i], '<') {
            depth = depth + 1;
        } else if is_punct(&ts[i], '>') {
            depth = depth - 1;
        }
        i = i + 1;
    }
    (i, i)
}

/// Adding a field adds its view.
pub proof fn lemma_field_views_push(v: Seq<FieldInfo>, f: FieldInfo)
    ensures
        field_views(v.push(f)) == field_views(v).push(f@),
{
    assert(field_views(v.push(f)) =~= field_views(v).push(f@));
}

/// The named fields `name: Type` (or parameters) read from `p` on, after
/// the fields `acc`: an error names the first token out of place.
pub open spec fn named_fields_from(ts: Seq<Token>, p: int, acc: Seq<FieldView>) -> Result<
    Seq<FieldView>,
    Seq<char>,
>
    decreases ts.len() - p,
{
    if p < 0 || p >= ts.len() {
        Ok(acc)
    } else {
        let (strategy, q) = field_attrs(ts, p, None);
        if q >= ts.len() {
            Ok(acc)
        } else if !(ts[q] is Ident) {
            Err(found_message("expected field name, found `"@, ts[q]))
        } else if q + 1 >= ts.len() {
            Err("expected `:` after field name"@)
        } else if !punct_is(ts[q + 1], ':') {
            Err(found_message("expected `:` after field name, found `"@, ts[q + 1]))
        } else {
            let (e, next) = until_comma(ts, q + 2, 0);
            proof {
                lemma_field_attrs_bounds(ts, p, None);
                lemma_until_comma_bounds(ts, q + 2, 0);
            }
            named_fields_from(
                ts,
                next,
                acc.push(FieldView { name: ident_text(ts[q]), ty: range_text(ts, q + 2, e), strategy }),
            )
        }
    }
}

/// The named fields (or parameters) that the tokens `ts` declare.
pub open spec fn named_fields(ts: Seq<Token>) -> Result<Seq<FieldView>, Seq<char>> {
    named_fields_from(ts, 0, seq![])
}

/// What a result of field reading holds, as text.
pub open spec fn fields_result(r: Result<Vec<FieldInfo>, String>) -> Result<Seq<FieldView>, Seq<char>> {
    match r {
        Ok(v) => Ok(field_views(v@)),
        Err(e) => Err(e@),
    }
}

/// Reads the named fields of `{ ... }` (or the parameters of a function);
/// see [`named_fields`].
pub fn parse_named_fields(ts: &Vec<Token>) -> (r: Result<Vec<FieldInfo>, String>)
    ensures
        fields_result(r) == named_fields(ts@),
{
    let mut out: Vec<FieldInfo> = Vec::new();
    let mut p: usize = 0;
    assert(field_views(out@) =~= seq![]);
    loop
        invariant
            p <= ts@.len(),
            named_fields_from(ts@, p as int, field_views(out@)) == named_fields(ts@),
        ensures
            named_fields(ts@) == Ok::<Seq<FieldView>, Seq<char>>(field_views(out@)),
        decreases ts@.len() - p,
    {
        if p >= ts.len() {
            break;
        }
        let (attrs, q) = collect_field_attrs(ts, p);
        if q >= ts.len() {
            break;
        }
        let name = match &ts[q] {
            Token::Ident(id) => id.clone(),
            other => {
                return Err(found("expected field name, found `", other));
            },
        };
        if q + 1 >= ts.len() {
            return Err(String::from_str("expected `:` after field name"));
        }
        if !is_punct(&ts[q + 1], ':') {
            return Err(found("expected `:` after field name, found `", &ts[q + 1]));
        }
        let (e, next) = collect_until_top_comma(ts, q + 2);
        let ty = range_string(ts, q + 2, e);
        let f = FieldInfo { name, ty, strategy: attrs.strategy };
        proof {
            lemma_field_views_push(out@, f);
        }
        out.push(f);
        p = next;
    }
    Ok(out)
}

/// The tuple fields read from `p` on, after the fields `acc`; reading stops
/// at the end or at a field with no type tokens.
pub open spec fn tuple_fields_from(ts: Seq<Token>, p: int, acc: Seq<FieldView>) -> Seq<FieldView>
    decreases ts.len() - p,
{
    if p < 0 || p >= ts.len() {
        acc
    } else {
        let (strategy, q) = field_attrs(ts, p, None);
        if q >= ts.len() {
            acc
        } else {
            let (e, next) = until_comma(ts, q, 0);
            proof {
                lemma_field_attrs_bounds(ts, p, None);
                lemma_until_comma_bounds(ts, q, 0);
            }
            if e <= q {
                acc
            } else {
                tuple_fields_from(
                    ts,
                    next,
                    acc.push(FieldView { name: seq![], ty: range_text(ts, q, e), strategy }),
                )
            }
        }
    }
}

/// The tuple fields that the tokens `ts` declare.
pub open spec fn tuple_fields(ts: Seq<Token>) -> Seq<FieldView> {
    tuple_fields_from(ts, 0, seq![])
}

/// Reads the fields of `( ... )`; see [`tuple_fields`].
pub fn parse_tuple_fields(ts: &Vec<Token>) -> (r: Vec<FieldInfo>)
    ensures
        field_views(r@) == tuple_fields(ts@),
{
    let mut out: Vec<FieldInfo> = Vec::new();
    let mut p: usize = 0;
    assert(field_views(out@) =~= seq![]);
    loop
        invariant
            p <= ts@.len(),
            tuple_fields_from(ts@, p as int, field_views(out@)) == tuple_fields(ts@),
        ensures
            tuple_fields(ts@) == field_views(out@),
        decreases ts@.len() - p,
    {
        if p >= ts.len() {
            break;
        }
        let (attrs, q) = collect_field_attrs(ts, p);
        if q >= ts.len() {
            break;
        }
        let (e, next) = collect_until_top_comma(ts, q);
        if e == q {
            break;
        }
        let ty = range_string(ts, q, e);
        let f = FieldInfo { name: String::new(), ty, strategy: attrs.strategy };
        proof {
            lemma_field_views_push(out@, f);
        }
        out.push(f);
        p = next;
    }
    out
}

/// Whether each of `ps` is a nonempty range of tokens within `n` tokens.
pub open spec fn ranges_within(ps: Seq<(int, int)>, n: int) -> bool {
    forall|k: int| 0 <= k < ps.len() ==> 0 <= (#[trigger] ps[k]).0 < ps[k].1 <= n
}

/// The parameters of generics `<...>` read from `i` on: the ranges of
/// tokens between the commas at the outer level (empty ones left out), and
/// where reading goes on after the closing `>`; `None` when no `>` closes
/// them. `depth` counts the `<` not yet closed and `start` is where the
/// current parameter began.
pub open spec fn generic_params(
    ts: Seq<Token>,
    i: int,
    depth: int,
    start: int,
    acc: Seq<(int, int)>,
) -> Option<(Seq<(int, int)>, int)>
    decreases ts.len() - i,
{
    if i < 0 || i >= ts.len() {
        None
    } else if punct_is(ts[i], '<') {
        generic_params(ts, i + 1, depth + 1, start, acc)
    } else if punct_is(ts[i], '>') {
        if depth <= 1 {
            Some(
                (
                    if i > start {
                        acc.push((start, i))
                    } else {
                        acc
                    },
                    i + 1,
                ),
            )
        } else {
            generic_params(ts, i + 1, depth - 1, start, acc)
        }
    } else if punct_is(ts[i], ',') && depth == 1 {
        generic_params(
            ts,
            i + 1,
            depth,
            i + 1,
            if i > start {
                acc.push((start, i))
            } else {
                acc
            },
        )
    } else {
        generic_params(ts, i + 1, depth, start, acc)
    }
}

/// The parameter ranges lie within the tokens, and reading goes on past
/// where it began.
pub proof fn lemma_generic_params(
    ts: Seq<Token>,
    i: int,
    depth: int,
    start: int,
    acc: Seq<(int, int)>,
)
    requires
        0 <= start <= i <= ts.len(),
        ranges_within(acc, ts.len() as int),
    ensures
        generic_params(ts, i, depth, start, acc) matches Some((ps, e)) ==> ranges_within(
            ps,
            ts.len() as int,
        ) && i < e <= ts.len(),
    decreases ts.len() - i,
{
    if i < ts.len() {
        if i > start {
            assert(ranges_within(acc.push((start, i)), ts.len() as int)) by {
                assert forall|k: int| 0 <= k < acc.push((start, i)).len() implies 0 <= (
                #[trigger] acc.push((start, i))[k]).0 < acc.push((start, i))[k].1
                    <= ts.len() by {
                    if k < acc.len() {
                        assert(acc.push((start, i))[k] == acc[k]);
                    }
                }
            }
        }
        if punct_is(ts[i], '<') {
            lemma_generic_params(ts, i + 1, depth + 1, start, acc);
        } else if punct_is(ts[i], '>') {
            if depth > 1 {
                lemma_generic_params(ts, i + 1, depth - 1, start, acc);
            }
        } else if punct_is(ts[i], ',') && depth == 1 {
            lemma_generic_params(
                ts,
                i + 1,
                depth,
                i + 1,
                if i > start {
                    acc.push((start, i))
                } else {
                    acc
                },
            );
        } else {
            lemma_generic_params(ts, i + 1, depth, start, acc);
        }
    }
}

/// What a generic parameter contributes to the list of arguments that names
/// the type: `'a` for a lifetime `'a`, `N` for `const N: T`, `T` for a type
/// parameter `T` (with or without bounds).
pub open spec fn param_use(ts: Seq<Token>, r: (int, int)) -> Option<Seq<char>> {
    let first = ts[r.0];
    if punct_is(first, '\'') {
        if r.1 - r.0 >= 2 && ts[r.0 + 1] is Ident {
            Some(seq!['\''] + ident_text(ts[r.0 + 1]))
        } else {
            None
        }
    } else if ident_is(first, "const"@) {
        if r.1 - r.0 >= 2 && ts[r.0 + 1] is Ident {
            Some(ident_text(ts[r.0 + 1]))
        } else {
            None
        }
    } else if first is Ident {
        Some(ident_text(first))
    } else {
        None
    }
}

/// The name of a generic parameter that is a type parameter.
pub open spec fn param_type(ts: Seq<Token>, r: (int, int)) -> Option<Seq<char>> {
    let first = ts[r.0];
    if first is Ident && !ident_is(first, "const"@) {
        Some(ident_text(first))
    } else {
        None
    }
}

/// The values that are present, in order.
pub open spec fn somes(os: Seq<Option<Seq<char>>>) -> Seq<Seq<char>>
    decreases os.len(),
{
    if os.len() == 0 {
        seq![]
    } else {
        somes(os.drop_last()) + match os.last() {
            Some(x) => seq![x],
            None => seq![],
        }
    }
}

/// The text of each parameter.
pub open spec fn param_texts(ts: Seq<Token>, ps: Seq<(int, int)>) -> Seq<Seq<char>> {
    ps.map_values(|r: (int, int)| range_text(ts, r.0, r.1))
}

/// What the parameters contribute to the arguments that name the type.
pub open spec fn param_uses(ts: Seq<Token>, ps: Seq<(int, int)>) -> Seq<Seq<char>> {
    somes(ps.map_values(|r: (int, int)| param_use(ts, r)))
}

/// The names of the type parameters.
pub open spec fn param_types(ts: Seq<Token>, ps: Seq<(int, int)>) -> Seq<Seq<char>> {
    somes(ps.map_values(|r: (int, int)| param_type(ts, r)))
}

/// The generics that start at `p`, if a `<` stands there: the parameters
/// as declared, joined with `, `; the arguments that name the type, joined
/// with `, `; the names of the type parameters; and where reading goes on.
/// Without `<` all three are empty and reading goes on at `p`.
pub open spec fn generics(ts: Seq<Token>, p: int) -> Result<
    (Seq<char>, Seq<char>, Seq<Seq<char>>, int),
    Seq<char>,
> {
    if 0 <= p < ts.len() && punct_is(ts[p], '<') {
        match generic_params(ts, p + 1, 1, p + 1, seq![]) {
            None => Err("unterminated generics `<...>`"@),
            Some((ps, e)) => Ok(
                (
                    joined(param_texts(ts, ps), ", "@),
                    joined(param_uses(ts, ps), ", "@),
                    param_types(ts, ps),
                    e,
                ),
            ),
        }
    } else {
        Ok((seq![], seq![], seq![], p))
    }
}

/// What a generic parameter contributes to the type's arguments and to the
/// type parameters; see [`param_use`] and [`param_type`].
fn generic_param_names(ts: &Vec<Token>, a: usize, b: usize) -> (r: (Option<String>, Option<String>))
    requires
        a < b <= ts@.len(),
    ensures
        opt_text(r.0) == param_use(ts@, (a as int, b as int)),
        opt_text(r.1) == param_type(ts@, (a as int, b as int)),
{
    if is_punct(&ts[a], '\'') {
        if b - a >= 2 {
            if let Token::Ident(name) = &ts[a + 1] {
                let mut u = String::from_str("'");
                string_push_str(&mut u, name.as_str());
                proof {
                    reveal_strlit("'");
                }
                return (Some(u), None);
            }
        }
        return (None, None);
    }
    if is_ident(&ts[a], "const") {
        if b - a >= 2 {
            if let Token::Ident(name) = &ts[a + 1] {
                return (Some(name.clone()), None);
            }
        }
        return (None, None);
    }
    match &ts[a] {
        Token::Ident(id) => (Some(id.clone()), Some(id.clone())),
        _ => (None, None),
    }
}

/// Reads the generics that start at `pos`; see [`generics`]. Returns the
/// declaration, the arguments, the type parameters and where reading goes
/// on.
pub fn parse_generics(ts: &Vec<Token>, pos: usize) -> (r: Result<
    (String, String, Vec<String>, usize),
    String,
>)
    requires
        pos <= ts@.len(),
    ensures
        match r {
            Ok((d, u, t, e)) => generics(ts@, pos as int) == Ok::<
                (Seq<char>, Seq<char>, Seq<Seq<char>>, int),
                Seq<char>,
            >((d@, u@, string_views(t@), e as int)) && pos <= e <= ts@.len(),
            Err(m) => generics(ts@, pos as int) == Err::<
                (Seq<char>, Seq<char>, Seq<Seq<char>>, int),
                Seq<char>,
            >(m@),
        },
{
    if !(pos < ts.len() && is_punct(&ts[pos], '<')) {
        assert(string_views(Seq::<String>::empty()) =~= seq![]);
        return Ok((String::new(), String::new(), Vec::new(), pos));
    }
    let n = ts.len();
    let mut ranges: Vec<(usize, usize)> = Vec::new();
    let ghost mut acc: Seq<(int, int)> = seq![];
    let mut depth: usize = 1;
    let mut start: usize = pos + 1;
    let mut i: usize = pos + 1;
    proof {
        lemma_generic_params(ts@, i as int, 1, start as int, acc);
    }
    let end: usize;
    loop
        invariant_except_break
            generic_params(ts@, i as int, depth as int, start as int, acc) == generic_params(
                ts@,
                pos + 1,
                1,
                pos + 1,
                seq![],
            ),
        invariant
            n == ts@.len(),
            pos < start <= i <= n,
            1 <= depth <= i - pos,
            acc.len() == ranges@.len(),
            forall|k: int| 0 <= k < acc.len() ==> (#[trigger] acc[k]).0 == ranges@[k].0 && acc[k].1
                == ranges@[k].1,
            ranges_within(acc, n as int),
            0 <= pos < n && punct_is(ts@[pos as int], '<'),
        ensures
            generic_params(ts@, pos + 1, 1, pos + 1, seq![]) == Some((acc, end as int)),
            pos < end <= n,
            acc.len() == ranges@.len(),
            forall|k: int| 0 <= k < acc.len() ==> (#[trigger] acc[k]).0 == ranges@[k].0 && acc[k].1
                == ranges@[k].1,
            ranges_within(acc, n as int),
        decreases n - i,
    {
        if i >= n {
            let m = String::from_str("unterminated generics `<...>`");
            assert(generic_params(ts@, pos + 1, 1, pos + 1, seq![]) is None);
            assert(generics(ts@, pos as int) == Err::<
                (Seq<char>, Seq<char>, Seq<Seq<char>>, int),
                Seq<char>,
            >(m@));
            return Err(m);
        }
        if is_punct(&ts[i], '<') {
            depth = depth + 1;
        } else if is_punct(&ts[i], '>') {
            if depth <= 1 {
                if i > start {
                    ranges.push((start, i));
                    proof {
                        acc = acc.push((start as int, i as int));
                    }
                }
                end = i + 1;
                break;
            }
            depth = depth - 1;
        } else if is_punct(&ts[i], ',') && depth == 1 {
            if i > start {
                ranges.push((start, i));
                proof {
                    acc = acc.push((start as int, i as int));
                }
            }
            start = i + 1;
        }
        i = i + 1;
    }
    let mut decls: Vec<String> = Vec::new();
    let mut uses: Vec<String> = Vec::new();
    let mut types: Vec<String> = Vec::new();
    let mut k: usize = 0;
    while k < ranges.len()
        invariant
            k <= ranges@.len() == acc.len(),
            n == ts@.len(),
            forall|j: int| 0 <= j < acc.len() ==> (#[trigger] acc[j]).0 == ranges@[j].0 && acc[j].1
                == ranges@[j].1,
            ranges_within(acc, n as int),
            string_views(decls@) == param_texts(ts@, acc.take(k as int)),
            string_views(uses@) == param_uses(ts@, acc.take(k as int)),
            string_views(types@) == param_types(ts@, acc.take(k as int)),
        decreases ranges@.len() - k,
    {
        let (a, b) = ranges[k];
        assert(acc[k as int] == (a as int, b as int));
        assert(0 <= acc[k as int].0 < acc[k as int].1 <= n);
        let text = range_string(ts, a, b);
        let (u, t) = generic_param_names(ts, a, b);
        proof {
            let tk = acc.take(k as int);
            let tk1 = acc.take(k + 1);
            assert(tk1.drop_last() == tk);
            assert(tk1.last() == (a as int, b as int));
            assert(tk1.map_values(|r: (int, int)| param_use(ts@, r)).drop_last() == tk.map_values(
                |r: (int, int)| param_use(ts@, r),
            ));
            assert(tk1.map_values(|r: (int, int)| param_type(ts@, r)).drop_last()
                == tk.map_values(|r: (int, int)| param_type(ts@, r)));
            assert(param_texts(ts@, tk1) == param_texts(ts@, tk).push(text@));
            lemma_string_views_push(decls@, text);
        }
        decls.push(text);
        match u {
            Some(s) => {
                proof {
                    lemma_string_views_push(uses@, s);
                }
                uses.push(s);
            },
            None => {},
        }
        match t {
            Some(s) => {
                proof {
                    lemma_string_views_push(types@, s);
                }
                types.push(s);
            },
            None => {},
        }
        k = k + 1;
    }
    assert(acc.take(acc.len() as int) == acc);
    let d = join_strings(&decls, ", ");
    let u = join_strings(&uses, ", ");
    Ok((d, u, types, end))
}

/// The attributes and visibility skipped never run past the tokens.
pub proof fn lemma_skip_attrs_bounds(ts: Seq<Token>, p: int)
    requires
        0 <= p <= ts.len(),
    ensures
        p <= skip_attrs(ts, p) <= ts.len(),
    decreases ts.len() - p,
{
    if 0 <= p < ts.len() && punct_is(ts[p], '#') {
        if p + 1 < ts.len() && ts[p + 1] is Group {
            lemma_skip_attrs_bounds(ts, p + 2);
        } else {
            lemma_skip_attrs_bounds(ts, p + 1);
        }
    } else if 0 <= p < ts.len() && ident_is(ts[p], "pub"@) {
        if p + 1 < ts.len() && group_is(ts[p + 1], Delim::Parenthesis) {
            lemma_skip_attrs_bounds(ts, p + 2);
        } else {
            lemma_skip_attrs_bounds(ts, p + 1);
        }
    }
}

/// Where a `where` clause whose bounds start at `i` ends: at the body (a
/// `{...}` or `(...)` group), at `;`, or at the end of the tokens.
pub open spec fn where_end(ts: Seq<Token>, i: int) -> int
    decreases ts.len() - i,
{
    if i < 0 || i >= ts.len() {
        i
    } else if group_is(ts[i], Delim::Brace) || group_is(ts[i], Delim::Parenthesis) || punct_is(
        ts[i],
        ';',
    ) {
        i
    } else {
        where_end(ts, i + 1)
    }
}

/// The end of a `where` clause lies within the tokens.
pub proof fn lemma_where_end_bounds(ts: Seq<Token>, i: int)
    requires
        0 <= i <= ts.len(),
    ensures
        i <= where_end(ts, i) <= ts.len(),
    decreases ts.len() - i,
{
    if i < ts.len() && !(group_is(ts[i], Delim::Brace) || group_is(ts[i], Delim::Parenthesis)
        || punct_is(ts[i], ';')) {
        lemma_where_end_bounds(ts, i + 1);
    }
}

/// The bounds of the `where` clause that starts at `p`, as written (without
/// the keyword), and where reading goes on; empty bounds and `p` when no
/// `where` stands there.
pub open spec fn where_clause(ts: Seq<Token>, p: int) -> (Seq<char>, int) {
    if 0 <= p < ts.len() && ident_is(ts[p], "where"@) {
        (range_text(ts, p + 1, where_end(ts, p + 1)), where_end(ts, p + 1))
    } else {
        (seq![], p)
    }
}

/// Reads the `where` clause that starts at `pos`, if any; see
/// [`where_clause`].
pub fn parse_optional_where(ts: &Vec<Token>, pos: usize) -> (r: (String, usize))
    requires
        pos <= ts@.len(),
    ensures
        (r.0@, r.1 as int) == where_clause(ts@, pos as int),
        pos <= r.1 <= ts@.len(),
{
    if !(pos < ts.len() && is_ident(&ts[pos], "where")) {
        return (String::new(), pos);
    }
    let mut i = pos + 1;
    proof {
        lemma_where_end_bounds(ts@, i as int);
    }
    while i < ts.len() && !(is_group(&ts[i], Delim::Brace) || is_group(&ts[i], Delim::Parenthesis)
        || is_punct(&ts[i], ';'))
        invariant
            pos < i <= ts@.len(),
            where_end(ts@, i as int) == where_end(ts@, pos + 1),
        decreases ts@.len() - i,
    {
        i = i + 1;
    }
    (range_string(ts, pos + 1, i), i)
}

/// An enum variant: its name and fields.
#[derive(Debug)]
pub struct Variant {
    /// The variant's name.
    pub name: String,
    /// The variant's fields.
    pub fields: Fields,
}

/// What a [`Variant`] holds, as text.
#[verifier::ext_equal]
pub struct VariantView {
    /// The variant's name.
    pub name: Seq<char>,
    /// The variant's fields.
    pub fields: FieldsView,
}

impl View for Variant {
    type V = VariantView;

    open spec fn view(&self) -> VariantView {
        VariantView { name: self.name@, fields: self.fields@ }
    }
}

/// The views of variants.
pub open spec fn variant_views(v: Seq<Variant>) -> Seq<VariantView> {
    v.map_values(|x: Variant| x@)
}

/// The fields of a variant whose name stands just before `i`, and where
/// reading goes on: `(...)` gives tuple fields, `{...}` named ones, and
/// anything else none.
pub open spec fn variant_fields(ts: Seq<Token>, i: int) -> (Result<FieldsView, Seq<char>>, int) {
    if 0 <= i < ts.len() {
        match ts[i] {
            Token::Group(Delim::Parenthesis, g) => (Ok(FieldsView::Unnamed(tuple_fields(g@))), i + 1),
            Token::Group(Delim::Brace, g) => (
                match named_fields(g@) {
                    Ok(fs) => Ok(FieldsView::Named(fs)),
                    Err(e) => Err(e),
                },
                i + 1,
            ),
            _ => (Ok(FieldsView::Unit), i),
        }
    } else {
        (Ok(FieldsView::Unit), i)
    }
}

/// The enum variants read from `p` on, after the variants `acc`.
pub open spec fn variants_from(ts: Seq<Token>, p: int, acc: Seq<VariantView>) -> Result<
    Seq<VariantView>,
    Seq<char>,
>
    decreases ts.len() - p,
{
    if p < 0 || p >= ts.len() {
        Ok(acc)
    } else {
        let q = skip_attrs(ts, p);
        if q >= ts.len() {
            Ok(acc)
        } else if !(ts[q] is Ident) {
            Err(found_message("expected variant name, found `"@, ts[q]))
        } else {
            let (fr, r) = variant_fields(ts, q + 1);
            match fr {
                Err(e) => Err(e),
                Ok(f) => {
                    let r2 = if r < ts.len() && punct_is(ts[r], ',') {
                        r + 1
                    } else {
                        r
                    };
                    proof {
                        lemma_skip_attrs_bounds(ts, p);
                    }
                    variants_from(ts, r2, acc.push(VariantView { name: ident_text(ts[q]), fields: f }))
                },
            }
        }
    }
}

/// The variants that the body of an enum declares.
pub open spec fn enum_variants(ts: Seq<Token>) -> Result<Seq<VariantView>, Seq<char>> {
    variants_from(ts, 0, seq![])
}

/// What a result of variant reading holds, as text.
pub open spec fn variants_result(r: Result<Vec<Variant>, String>) -> Result<
    Seq<VariantView>,
    Seq<char>,
> {
    match r {
        Ok(v) => Ok(variant_views(v@)),
        Err(e) => Err(e@),
    }
}

/// Reads the variants of an enum body; see [`enum_variants`].
pub fn parse_enum_variants(ts: &Vec<Token>) -> (r: Result<Vec<Variant>, String>)
    ensures
        variants_result(r) == enum_variants(ts@),
{
    let mut out: Vec<Variant> = Vec::new();
    let mut p: usize = 0;
    assert(variant_views(out@) =~= seq![]);
    loop
        invariant
            p <= ts@.len(),
            variants_from(ts@, p as int, variant_views(out@)) == enum_variants(ts@),
        ensures
            enum_variants(ts@) == Ok::<Seq<VariantView>, Seq<char>>(variant_views(out@)),
        decreases ts@.len() - p,
    {
        if p >= ts.len() {
            break;
        }
        let q = skip_attrs_and_visibility(ts, p);
        if q >= ts.len() {
            break;
        }
        let name = match &ts[q] {
            Token::Ident(id) => id.clone(),
            other => {
                return Err(found("expected variant name, found `", other));
            },
        };
        let mut r = q + 1;
        let fields = if r < ts.len() {
            match &ts[r] {
                Token::Group(Delim::Parenthesis, g) => {
                    r = r + 1;
                    Fields::Unnamed(parse_tuple_fields(g))
                },
                Token::Group(Delim::Brace, g) => {
                    r = r + 1;
                    match parse_named_fields(g) {
                        Ok(fs) => Fields::Named(fs),
                        Err(e) => {
                            return Err(e);
                        },
                    }
                },
                _ => Fields::Unit,
            }
        } else {
            Fields::Unit
        };
        assert(variant_fields(ts@, q + 1) == (Ok::<FieldsView, Seq<char>>(fields@), r as int));
        if r < ts.len() && is_punct(&ts[r], ',') {
            r = r + 1;
        }
        let v = Variant { name, fields };
        proof {
            assert(variant_views(out@.push(v)) =~= variant_views(out@).push(v@));
        }
        out.push(v);
        p = r;
    }
    Ok(out)
}

/// A struct that `#[derive(Arbitrary)]` reads.
#[derive(Debug)]
pub struct ParsedStruct {
    /// The struct's name.
    pub name: String,
    /// The generic parameters as declared, without `<>`.
    pub generics_decl: String,
    /// The generic arguments that name the type, without `<>`.
    pub generics_use: String,
    /// The names of the type parameters.
    pub type_params: Vec<String>,
    /// The bounds of the struct's own `where` clause, if any.
    pub where_extra: String,
    /// The struct's fields.
    pub fields: Fields,
}

/// What a [`ParsedStruct`] holds, as text.
#[verifier::ext_equal]
pub struct StructView {
    /// The struct's name.
    pub name: Seq<char>,
    /// The generic parameters as declared.
    pub generics_decl: Seq<char>,
    /// The generic arguments that name the type.
    pub generics_use: Seq<char>,
    /// The names of the type parameters.
    pub type_params: Seq<Seq<char>>,
    /// The bounds of the struct's own `where` clause.
    pub where_extra: Seq<char>,
    /// The struct's fields.
    pub fields: FieldsView,
}

impl View for ParsedStruct {
    type V = StructView;

    open spec fn view(&self) -> StructView {
        StructView {
            name: self.name@,
            generics_decl: self.generics_decl@,
            generics_use: self.generics_use@,
            type_params: string_views(self.type_params@),
            where_extra: self.where_extra@,
            fields: self.fields@,
        }
    }
}

/// An enum that `#[derive(Arbitrary)]` reads.
#[derive(Debug)]
pub struct ParsedEnum {
    /// The enum's name.
    pub name: String,
    /// The generic parameters as declared, without `<>`.
    pub generics_decl: String,
    /// The generic arguments that name the type, without `<>`.
    pub generics_use: String,
    /// The names of the type parameters.
    pub type_params: Vec<String>,
    /// The bounds of the enum's own `where` clause, if any.
    pub where_extra: String,
    /// The enum's variants.
    pub variants: Vec<Variant>,
}

/// What a [`ParsedEnum`] holds, as text.
#[verifier::ext_equal]
pub struct EnumView {
    /// The enum's name.
    pub name: Seq<char>,
    /// The generic parameters as declared.
    pub generics_decl: Seq<char>,
    /// The generic arguments that name the type.
    pub generics_use: Seq<char>,
    /// The names of the type parameters.
    pub type_params: Seq<Seq<char>>,
    /// The bounds of the enum's own `where` clause.
    pub where_extra: Seq<char>,
    /// The enum's variants.
    pub variants: Seq<VariantView>,
}

impl View for ParsedEnum {
    type V = EnumView;

    open spec fn view(&self) -> EnumView {
        EnumView {
            name: self.name@,
            generics_decl: self.generics_decl@,
            generics_use: self.generics_use@,
            type_params: string_views(self.type_params@),
            where_extra: self.where_extra@,
            variants: variant_views(self.variants@),
        }
    }
}

/// The item `#[derive(Arbitrary)]` was put on.
#[derive(Debug)]
pub enum ParsedItem {
    /// A struct.
    Struct(ParsedStruct),
    /// An enum.
    Enum(ParsedEnum),
}

/// What a [`ParsedItem`] holds, as text.
#[verifier::ext_equal]
pub enum ItemView {
    /// A struct.
    Struct(StructView),
    /// An enum.
    Enum(EnumView),
}

impl View for ParsedItem {
    type V = ItemView;

    open spec fn view(&self) -> ItemView {
        match self {
            ParsedItem::Struct(s) => ItemView::Struct(s@),
            ParsedItem::Enum(e) => ItemView::Enum(e@),
        }
    }
}

/// The struct or enum the tokens `ts` declare, or the message for the
/// first thing out of place: attributes and visibility come first, then
/// `struct` or `enum`, the name, generics, a `where` clause, and the body.
/// An enum needs at least one variant.
pub open spec fn parsed_input(ts: Seq<Token>) -> Result<ItemView, Seq<char>> {
    let p = skip_attrs(ts, 0);
    if p >= ts.len() {
        Err("expected `struct` or `enum`"@)
    } else if !(ts[p] is Ident) {
        Err(found_message("expected `struct` or `enum`, found `"@, ts[p]))
    } else if ident_text(ts[p]) != "struct"@ && ident_text(ts[p]) != "enum"@ {
        Err("#[derive(Arbitrary)] only supports `struct` and `enum`, got `"@ + ident_text(ts[p])
            + "`"@)
    } else if p + 1 >= ts.len() {
        Err("expected type name"@)
    } else if !(ts[p + 1] is Ident) {
        Err(found_message("expected identifier, found `"@, ts[p + 1]))
    } else {
        let name = ident_text(ts[p + 1]);
        match generics(ts, p + 2) {
            Err(e) => Err(e),
            Ok((decl, uses, tps, g)) => {
                let (wh, w) = where_clause(ts, g);
                if ident_text(ts[p]) == "struct"@ {
                    if w < 0 || w >= ts.len() {
                        Err("expected struct body"@)
                    } else {
                        let item = |f: FieldsView|
                            ItemView::Struct(
                                StructView {
                                    name,
                                    generics_decl: decl,
                                    generics_use: uses,
                                    type_params: tps,
                                    where_extra: wh,
                                    fields: f,
                                },
                            );
                        match ts[w] {
                            Token::Group(Delim::Brace, b) => match named_fields(b@) {
                                Ok(fs) => Ok(item(FieldsView::Named(fs))),
                                Err(e) => Err(e),
                            },
                            Token::Group(Delim::Parenthesis, b) => Ok(
                                item(FieldsView::Unnamed(tuple_fields(b@))),
                            ),
                            Token::Punct(';', _) => Ok(item(FieldsView::Unit)),
                            _ => Err(found_message("expected struct body or `;`, found `"@, ts[w])),
                        }
                    }
                } else {
                    if w < 0 || w >= ts.len() {
                        Err("expected enum body"@)
                    } else {
                        match ts[w] {
                            Token::Group(Delim::Brace, b) => match enum_variants(b@) {
                                Err(e) => Err(e),
                                Ok(vs) => if vs.len() == 0 {
                                    Err("#[derive(Arbitrary)] needs at least one variant on an enum"@)
                                } else {
                                    Ok(
                                        ItemView::Enum(
                                            EnumView {
                                                name,
                                                generics_decl: decl,
                                                generics_use: uses,
                                                type_params: tps,
                                                where_extra: wh,
                                                variants: vs,
                                            },
                                        ),
                                    )
                                },
                            },
                            _ => Err(found_message("expected enum body `{ ... }`, found `"@, ts[w])),
                        }
                    }
                }
            },
        }
    }
}

/// What a result of item reading holds, as text.
pub open spec fn item_result(r: Result<ParsedItem, String>) -> Result<ItemView, Seq<char>> {
    match r {
        Ok(i) => Ok(i@),
        Err(e) => Err(e@),
    }
}

/// Reads the struct or enum that `#[derive(Arbitrary)]` was put on; see
/// [`parsed_input`].
pub fn parse_input(ts: &Vec<Token>) -> (r: Result<ParsedItem, String>)
    ensures
        item_result(r) == parsed_input(ts@),
{
    let p = skip_attrs_and_visibility(ts, 0);
    if p >= ts.len() {
        return Err(String::from_str("expected `struct` or `enum`"));
    }
    let kind = match &ts[p] {
        Token::Ident(id) => id.clone(),
        other => {
            return Err(found("expected `struct` or `enum`, found `", other));
        },
    };
    let is_struct = kind == String::from_str("struct");
    let is_enum = kind == String::from_str("enum");
    if !is_struct && !is_enum {
        let mut m = String::from_str("#[derive(Arbitrary)] only supports `struct` and `enum`, got `");
        string_push_str(&mut m, kind.as_str());
        string_push_str(&mut m, "`");
        return Err(m);
    }
    if p + 1 >= ts.len() {
        return Err(String::from_str("expected type name"));
    }
    let name = match &ts[p + 1] {
        Token::Ident(id) => id.clone(),
        other => {
            return Err(found("expected identifier, found `", other));
        },
    };
    let (generics_decl, generics_use, type_params, g) = match parse_generics(ts, p + 2) {
        Ok(x) => x,
        Err(e) => {
            return Err(e);
        },
    };
    let (where_extra, w) = parse_optional_where(ts, g);
    if is_struct {
        if w >= ts.len() {
            return Err(String::from_str("expected struct body"));
        }
        let fields = match &ts[w] {
            Token::Group(Delim::Brace, b) => match parse_named_fields(b) {
                Ok(fs) => Fields::Named(fs),
                Err(e) => {
                    return Err(e);
                },
            },
            Token::Group(Delim::Parenthesis, b) => Fields::Unnamed(parse_tuple_fields(b)),
            Token::Punct(';', _) => Fields::Unit,
            other => {
                return Err(found("expected struct body or `;`, found `", other));
            },
        };
        Ok(
            ParsedItem::Struct(
                ParsedStruct { name, generics_decl, generics_use, type_params, where_extra, fields },
            ),
        )
    } else {
        if w >= ts.len() {
            return Err(String::from_str("expected enum body"));
        }
        let variants = match &ts[w] {
            Token::Group(Delim::Brace, b) => match parse_enum_variants(b) {
                Ok(vs) => vs,
                Err(e) => {
                    return Err(e);
                },
            },
            other => {
                return Err(found("expected enum body `{ ... }`, found `", other));
            },
        };
        if variants.len() == 0 {
            return Err(
                String::from_str("#[derive(Arbitrary)] needs at least one variant on an enum"),
            );
        }
        Ok(
            ParsedItem::Enum(
                ParsedEnum { name, generics_decl, generics_use, type_params, where_extra, variants },
            ),
        )
    }
}

} // verus!
