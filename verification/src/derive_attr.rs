//! The `#[propcheck]` test attribute and the two entry points: reading the
//! attribute's arguments and the test function, writing the `#[test]`
//! wrapper, and turning a message into a `compile_error!`.
use vstd::prelude::*;
use crate::derive::{
    Delim, Token, group_is, ident_is, is_group, is_ident, is_punct, punct_is, range_string,
    range_text, token_string, token_text, tokens_text,
};
use crate::derive_gen::{
    enum_impl_text, generate_arbitrary_impl, generate_arbitrary_impl_enum, struct_impl_text,
};
use crate::derive_parse::{
    FieldInfo, FieldView, ItemView, ParsedItem, field_views, ident_text, item_result,
    named_fields, parse_input, parse_named_fields, parsed_input, skip_attrs,
    skip_attrs_and_visibility,
};
use crate::regression::parsed_u64;
use crate::text::{
    chars_of, decimal, join_strings, joined, lemma_string_views_push, push_decimal, replace_all,
    replaced, string_from_chars, string_push_str, string_views,
};

verus! {

/// The text `{:?}` gives for a string: the string in double quotes, with
/// quotes, backslashes and characters that need it escaped.
pub uninterp spec fn debug_str_text(s: Seq<char>) -> Seq<char>;

/// `<str as Debug>::fmt`, through `format!("{:?}")`. The result is named by
/// [`debug_str_text`]; what the escapes are is left unstated.
#[verifier::external_body]
fn debug_str(s: &str) -> (r: String)
    ensures
        r@ == debug_str_text(s@),
{
    format!("{:?}", s)
}

/// The message of the error `str::parse::<u64>` gives for `s`.
pub uninterp spec fn parse_u64_error_text(s: Seq<char>) -> Seq<char>;

/// `<u64 as FromStr>::from_str`: as its documentation says, it accepts an
/// optional `+` followed by decimal digits whose value fits in a `u64`; on
/// any other text it fails, and the error's message (named by
/// [`parse_u64_error_text`]) is returned.
#[verifier::external_body]
fn parse_u64(s: &str) -> (r: Result<u64, String>)
    ensures
        match r {
            Ok(v) => parsed_u64(s@) == Some(v),
            Err(m) => parsed_u64(s@) is None && m@ == parse_u64_error_text(s@),
        },
{
    match s.parse::<u64>() {
        Ok(v) => Ok(v),
        Err(e) => Err(e.to_string()),
    }
}

/// The arguments of `#[propcheck(...)]`, each set by `key = <integer>`.
#[derive(Debug, Clone, Copy, PartialEq, Eq, Structural)]
pub struct AttrArgs {
    /// `cases`: how many passing cases make a pass.
    pub cases: Option<u64>,
    /// `seed`: a fixed seed for the generator.
    pub seed: Option<u64>,
    /// `max_shrinks`: the most shrink steps.
    pub max_shrinks: Option<u64>,
    /// `max_size`: the largest size handed to generators.
    pub max_size: Option<u64>,
    /// `max_discards`: the most discarded cases before giving up.
    pub max_discards: Option<u64>,
    /// `max_skips`: the most skipped cases before giving up.
    pub max_skips: Option<u64>,
}

/// No argument set.
pub open spec fn no_args() -> AttrArgs {
    AttrArgs {
        cases: None,
        seed: None,
        max_shrinks: None,
        max_size: None,
        max_discards: None,
        max_skips: None,
    }
}

impl AttrArgs {
    /// Whether any argument is set.
    pub open spec fn any_set_spec(self) -> bool {
        self.cases is Some || self.seed is Some || self.max_shrinks is Some || self.max_size is Some
            || self.max_discards is Some || self.max_skips is Some
    }

    /// Whether any argument is set.
    pub fn any_set(&self) -> (r: bool)
        ensures
            r == self.any_set_spec(),
    {
        self.cases.is_some() || self.seed.is_some() || self.max_shrinks.is_some()
            || self.max_size.is_some() || self.max_discards.is_some() || self.max_skips.is_some()
    }
}

/// `args` with the argument `key` set to `v`; `None` for an unknown key.
pub open spec fn with_arg(args: AttrArgs, key: Seq<char>, v: u64) -> Option<AttrArgs> {
    if key == "cases"@ {
        Some(AttrArgs { cases: Some(v), ..args })
    } else if key == "seed"@ {
        Some(AttrArgs { seed: Some(v), ..args })
    } else if key == "max_shrinks"@ {
        Some(AttrArgs { max_shrinks: Some(v), ..args })
    } else if key == "max_size"@ {
        Some(AttrArgs { max_size: Some(v), ..args })
    } else if key == "max_discards"@ {
        Some(AttrArgs { max_discards: Some(v), ..args })
    } else if key == "max_skips"@ {
        Some(AttrArgs { max_skips: Some(v), ..args })
    } else {
        None
    }
}

/// The text of a literal token (empty for any other token).
pub open spec fn literal_text(t: Token) -> Seq<char> {
    match t {
        Token::Literal(s) => s@,
        _ => seq![],
    }
}

/// The arguments `key = <integer>` read from `p` on, separated by commas,
/// on top of `acc`; an error names the first thing out of place. A
/// value's text must parse as a `u64` (an optional `+` and decimal digits,
/// no suffix) and the key must be a known one; a later key overrides an
/// earlier one.
pub open spec fn attr_args_from(ts: Seq<Token>, p: int, acc: AttrArgs) -> Result<
    AttrArgs,
    Seq<char>,
>
    decreases ts.len() - p,
{
    if p < 0 || p >= ts.len() {
        Ok(acc)
    } else if !(ts[p] is Ident) {
        Err("expected key identifier, found `"@ + token_text(ts[p]) + "`"@)
    } else {
        let key = ident_text(ts[p]);
        if p + 1 >= ts.len() {
            Err("expected `=` after `"@ + key + "`, found `"@ + "`"@)
        } else if !punct_is(ts[p + 1], '=') {
            Err("expected `=` after `"@ + key + "`, found `"@ + token_text(ts[p + 1]) + "`"@)
        } else if p + 2 >= ts.len() {
            Err("expected value for `"@ + key + "`"@)
        } else if !(ts[p + 2] is Literal) {
            Err("expected integer literal for `"@ + key + "`, found `"@ + token_text(ts[p + 2])
                + "`"@)
        } else {
            let text = literal_text(ts[p + 2]);
            match parsed_u64(text) {
                None => Err("invalid integer literal for `"@ + key + "` ("@ + debug_str_text(text)
                    + "): "@ + parse_u64_error_text(text)),
                Some(v) => match with_arg(acc, key, v) {
                    None => Err("unknown #[propcheck] argument: `"@ + key + "`"@),
                    Some(a) => attr_args_from(
                        ts,
                        if p + 3 < ts.len() && punct_is(ts[p + 3], ',') {
                            p + 4
                        } else {
                            p + 3
                        },
                        a,
                    ),
                },
            }
        }
    }
}

/// The arguments of `#[propcheck(...)]` the tokens `ts` give.
pub open spec fn attr_args(ts: Seq<Token>) -> Result<AttrArgs, Seq<char>> {
    attr_args_from(ts, 0, no_args())
}

/// What a result of argument reading holds, as text.
pub open spec fn args_result(r: Result<AttrArgs, String>) -> Result<AttrArgs, Seq<char>> {
    match r {
        Ok(a) => Ok(a),
        Err(e) => Err(e@),
    }
}

/// Sets the argument `key` to `v`; see [`with_arg`].
fn set_arg(args: &mut AttrArgs, key: &String, v: u64) -> (r: bool)
    ensures
        r == with_arg(*old(args), key@, v) is Some,
        r ==> with_arg(*old(args), key@, v) == Some(*final(args)),
{
    if *key == String::from_str("cases") {
        args.cases = Some(v);
    } else if *key == String::from_str("seed") {
        args.seed = Some(v);
    } else if *key == String::from_str("max_shrinks") {
        args.max_shrinks = Some(v);
    } else if *key == String::from_str("max_size") {
        args.max_size = Some(v);
    } else if *key == String::from_str("max_discards") {
        args.max_discards = Some(v);
    } else if *key == String::from_str("max_skips") {
        args.max_skips = Some(v);
    } else {
        return false;
    }
    true
}

/// Reads the arguments of `#[propcheck(...)]`; see [`attr_args`].
pub fn parse_attr_args(ts: &Vec<Token>) -> (r: Result<AttrArgs, String>)
    ensures
        args_result(r) == attr_args(ts@),
{
    let mut args = AttrArgs {
        cases: None,
        seed: None,
        max_shrinks: None,
        max_size: None,
        max_discards: None,
        max_skips: None,
    };
    let mut p: usize = 0;
    while p < ts.len()
        invariant
            p <= ts@.len(),
            attr_args_from(ts@, p as int, args) == attr_args(ts@),
        decreases ts@.len() - p,
    {
        let key = match &ts[p] {
            Token::Ident(id) => id.clone(),
            other => {
                let mut m = String::from_str("expected key identifier, found `");
                let t = token_string(other);
                string_push_str(&mut m, t.as_str());
                string_push_str(&mut m, "`");
                return Err(m);
            },
        };
        if p + 1 >= ts.len() || !is_punct(&ts[p + 1], '=') {
            let mut m = String::from_str("expected `=` after `");
            string_push_str(&mut m, key.as_str());
            string_push_str(&mut m, "`, found `");
            if p + 1 < ts.len() {
                let t = token_string(&ts[p + 1]);
                string_push_str(&mut m, t.as_str());
            }
            string_push_str(&mut m, "`");
            return Err(m);
        }
        if p + 2 >= ts.len() {
            let mut m = String::from_str("expected value for `");
            string_push_str(&mut m, key.as_str());
            string_push_str(&mut m, "`");
            return Err(m);
        }
        let text = match &ts[p + 2] {
            Token::Literal(lit) => lit.clone(),
            other => {
                let mut m = String::from_str("expected integer literal for `");
                string_push_str(&mut m, key.as_str());
                string_push_str(&mut m, "`, found `");
                let t = token_string(other);
                string_push_str(&mut m, t.as_str());
                string_push_str(&mut m, "`");
                return Err(m);
            },
        };
        let v = match parse_u64(text.as_str()) {
            Ok(v) => v,
            Err(e) => {
                let mut m = String::from_str("invalid integer literal for `");
                string_push_str(&mut m, key.as_str());
                string_push_str(&mut m, "` (");
                let d = debug_str(text.as_str());
                string_push_str(&mut m, d.as_str());
                string_push_str(&mut m, "): ");
                string_push_str(&mut m, e.as_str());
                return Err(m);
            },
        };
        if !set_arg(&mut args, &key, v) {
            let mut m = String::from_str("unknown #[propcheck] argument: `");
            string_push_str(&mut m, key.as_str());
            string_push_str(&mut m, "`");
            return Err(m);
        }
        if p + 3 < ts.len() && is_punct(&ts[p + 3], ',') {
            p = p + 4;
        } else {
            p = p + 3;
        }
    }
    Ok(args)
}

/// A test function that `#[propcheck]` wraps.
#[derive(Debug)]
pub struct ParsedFn {
    /// The function's name.
    pub name: String,
    /// Its parameters.
    pub params: Vec<FieldInfo>,
    /// Its return type as written; empty when none is declared.
    pub return_type: String,
    /// The text of its body, without the braces.
    pub body: String,
    /// Whether it was declared `async fn`.
    pub is_async: bool,
}

/// What a [`ParsedFn`] holds, as text.
#[verifier::ext_equal]
pub struct FnView {
    /// The function's name.
    pub name: Seq<char>,
    /// Its parameters.
    pub params: Seq<FieldView>,
    /// Its return type as written.
    pub return_type: Seq<char>,
    /// The text of its body.
    pub body: Seq<char>,
    /// Whether it was declared `async fn`.
    pub is_async: bool,
}

impl View for ParsedFn {
    type V = FnView;

    open spec fn view(&self) -> FnView {
        FnView {
            name: self.name@,
            params: field_views(self.params@),
            return_type: self.return_type@,
            body: self.body@,
            is_async: self.is_async,
        }
    }
}

/// Where the qualifiers before `fn` that start at `p` end (each identifier
/// other than `fn`, an `extern` with its ABI literal), and whether `async`
/// is among them or `is_async` already holds.
pub open spec fn fn_qualifiers(ts: Seq<Token>, p: int, is_async: bool) -> (int, bool)
    decreases ts.len() - p,
{
    if 0 <= p < ts.len() && ts[p] is Ident && !ident_is(ts[p], "fn"@) {
        fn_qualifiers(
            ts,
            if ident_is(ts[p], "extern"@) && p + 1 < ts.len() && ts[p + 1] is Literal {
                p + 2
            } else {
                p + 1
            },
            is_async || ident_is(ts[p], "async"@),
        )
    } else {
        (p, is_async)
    }
}

/// The qualifiers lie within the tokens.
pub proof fn lemma_fn_qualifiers_bounds(ts: Seq<Token>, p: int, is_async: bool)
    requires
        0 <= p <= ts.len(),
    ensures
        p <= fn_qualifiers(ts, p, is_async).0 <= ts.len(),
    decreases ts.len() - p,
{
    if 0 <= p < ts.len() && ts[p] is Ident && !ident_is(ts[p], "fn"@) {
        lemma_fn_qualifiers_bounds(
            ts,
            if ident_is(ts[p], "extern"@) && p + 1 < ts.len() && ts[p + 1] is Literal {
                p + 2
            } else {
                p + 1
            },
            is_async || ident_is(ts[p], "async"@),
        );
    }
}

/// Where a return type that starts at `i` ends: at a `{...}` group or at
/// the end of the tokens.
pub open spec fn return_type_end(ts: Seq<Token>, i: int) -> int
    decreases ts.len() - i,
{
    if i < 0 || i >= ts.len() || group_is(ts[i], Delim::Brace) {
        i
    } else {
        return_type_end(ts, i + 1)
    }
}

/// The end of a return type lies within the tokens.
pub proof fn lemma_return_type_end_bounds(ts: Seq<Token>, i: int)
    requires
        0 <= i <= ts.len(),
    ensures
        i <= return_type_end(ts, i) <= ts.len(),
    decreases ts.len() - i,
{
    if i < ts.len() && !group_is(ts[i], Delim::Brace) {
        lemma_return_type_end_bounds(ts, i + 1);
    }
}

/// The tokens inside a group (none for any other token).
pub open spec fn group_tokens(t: Token) -> Seq<Token> {
    match t {
        Token::Group(_, g) => g@,
        _ => seq![],
    }
}

/// The test function the tokens `ts` declare, or the message for the first
/// thing out of place: attributes and visibility, qualifiers, `fn`, the
/// name (no generics), the parameters, an optional `-> Type`, and the
/// body.
pub open spec fn parsed_fn(ts: Seq<Token>) -> Result<FnView, Seq<char>> {
    let (p, is_async) = fn_qualifiers(ts, skip_attrs(ts, 0), false);
    if !(0 <= p < ts.len() && ident_is(ts[p], "fn"@)) {
        Err("expected `fn`, found `"@ + (if 0 <= p < ts.len() {
            token_text(ts[p])
        } else {
            seq![]
        }) + "`"@)
    } else if !(p + 1 < ts.len() && ts[p + 1] is Ident) {
        Err("expected function name"@)
    } else if p + 2 < ts.len() && punct_is(ts[p + 2], '<') {
        Err("generic test functions are not supported by #[propcheck]"@)
    } else if !(p + 2 < ts.len() && group_is(ts[p + 2], Delim::Parenthesis)) {
        Err("expected `(...)` parameter list"@)
    } else {
        match named_fields(group_tokens(ts[p + 2])) {
            Err(e) => Err(e),
            Ok(params) => {
                let q = p + 3;
                if q < ts.len() && punct_is(ts[q], '-') && !(q + 1 < ts.len() && punct_is(
                    ts[q + 1],
                    '>',
                )) {
                    Err("expected `->` in return type"@)
                } else {
                    let (return_type, b) = if q < ts.len() && punct_is(ts[q], '-') {
                        (range_text(ts, q + 2, return_type_end(ts, q + 2)), return_type_end(ts, q + 2))
                    } else {
                        (seq![], q)
                    };
                    if 0 <= b < ts.len() && group_is(ts[b], Delim::Brace) {
                        Ok(
                            FnView {
                                name: ident_text(ts[p + 1]),
                                params,
                                return_type,
                                body: tokens_text(group_tokens(ts[b])),
                                is_async,
                            },
                        )
                    } else {
                        Err("expected function body `{ ... }`"@)
                    }
                }
            },
        }
    }
}

/// What a result of function reading holds, as text.
pub open spec fn fn_result(r: Result<ParsedFn, String>) -> Result<FnView, Seq<char>> {
    match r {
        Ok(f) => Ok(f@),
        Err(e) => Err(e@),
    }
}

/// Reads the test function `#[propcheck]` was put on; see [`parsed_fn`].
pub fn parse_fn(ts: &Vec<Token>) -> (r: Result<ParsedFn, String>)
    ensures
        fn_result(r) == parsed_fn(ts@),
{
    let p0 = skip_attrs_and_visibility(ts, 0);
    let mut p = p0;
    let mut is_async = false;
    loop
        invariant
            p0 <= p <= ts@.len(),
            p0 == skip_attrs(ts@, 0),
            fn_qualifiers(ts@, p as int, is_async) == fn_qualifiers(ts@, p0 as int, false),
        ensures
            p0 <= p <= ts@.len(),
            (p as int, is_async) == fn_qualifiers(ts@, p0 as int, false),
        decreases ts@.len() - p,
    {
        if p >= ts.len() {
            break;
        }
        match &ts[p] {
            Token::Ident(_) => {},
            _ => {
                break;
            },
        }
        if is_ident(&ts[p], "fn") {
            break;
        }
        if is_ident(&ts[p], "async") {
            is_async = true;
        }
        let is_extern = is_ident(&ts[p], "extern");
        p = p + 1;
        if is_extern && p < ts.len() {
            if let Token::Literal(_) = &ts[p] {
                p = p + 1;
            }
        }
    }
    if !(p < ts.len() && is_ident(&ts[p], "fn")) {
        let mut m = String::from_str("expected `fn`, found `");
        if p < ts.len() {
            let t = token_string(&ts[p]);
            string_push_str(&mut m, t.as_str());
        }
        string_push_str(&mut m, "`");
        return Err(m);
    }
    let name = if p + 1 < ts.len() {
        match &ts[p + 1] {
            Token::Ident(id) => id.clone(),
            _ => {
                return Err(String::from_str("expected function name"));
            },
        }
    } else {
        return Err(String::from_str("expected function name"));
    };
    if p + 2 < ts.len() && is_punct(&ts[p + 2], '<') {
        return Err(String::from_str("generic test functions are not supported by #[propcheck]"));
    }
    let params = if p + 2 < ts.len() {
        match &ts[p + 2] {
            Token::Group(Delim::Parenthesis, g) => match parse_named_fields(g) {
                Ok(fs) => fs,
                Err(e) => {
                    return Err(e);
                },
            },
            _ => {
                return Err(String::from_str("expected `(...)` parameter list"));
            },
        }
    } else {
        return Err(String::from_str("expected `(...)` parameter list"));
    };
    let q = p + 3;
    let mut return_type = String::new();
    let mut b = q;
    if q < ts.len() && is_punct(&ts[q], '-') {
        if !(q + 1 < ts.len() && is_punct(&ts[q + 1], '>')) {
            return Err(String::from_str("expected `->` in return type"));
        }
        let mut e = q + 2;
        proof {
            lemma_return_type_end_bounds(ts@, e as int);
        }
        while e < ts.len() && !is_group(&ts[e], Delim::Brace)
            invariant
                q + 2 <= e <= ts@.len(),
                return_type_end(ts@, e as int) == return_type_end(ts@, q + 2),
            decreases ts@.len() - e,
        {
            e = e + 1;
        }
        return_type = range_string(ts, q + 2, e);
        b = e;
    }
    if b < ts.len() {
        if let Token::Group(Delim::Brace, g) = &ts[b] {
            let body = range_string(g, 0, g.len());
            assert(g@.subrange(0, g@.len() as int) == g@);
            return Ok(ParsedFn { name, params, return_type, body, is_async });
        }
    }
    Err(String::from_str("expected function body `{ ... }`"))
}

/// The type of the value the runner generates for a test function: `()`
/// with no parameters, the parameter's type with one, a tuple of the types
/// with more.
pub open spec fn arg_type(f: FnView) -> Seq<char> {
    if f.params.len() == 0 {
        "()"@
    } else if f.params.len() == 1 {
        f.params[0].ty
    } else {
        "("@ + joined(f.params.map_values(|p: FieldView| p.ty), ", "@) + ")"@
    }
}

/// The statement that binds the parameters to a clone of the generated
/// value.
pub open spec fn destructure(f: FnView) -> Seq<char> {
    if f.params.len() == 0 {
        seq![]
    } else if f.params.len() == 1 {
        "let "@ + f.params[0].name + " = ::std::clone::Clone::clone(__arg);\n"@
    } else {
        "let ("@ + joined(f.params.map_values(|p: FieldView| p.name), ", "@)
            + ") = ::std::clone::Clone::clone(__arg);\n"@
    }
}

/// The closure the runner calls with each generated value: it binds the
/// parameters, runs the body (an `async` body through `block_on`), and
/// turns what the body returns into a property result.
pub open spec fn inner_closure(f: FnView) -> Seq<char> {
    if f.is_async {
        "|__arg: &"@ + arg_type(f) + "| {\n"@ + destructure(f) + "let __out: "@ + (if f.return_type.len()
            == 0 {
            "_"@
        } else {
            f.return_type
        }) + " = ::propcheck::block_on(async move {\n"@ + f.body
            + "\n});\n::propcheck::IntoPropResult::into_prop_result(__out)\n}"@
    } else {
        "|__arg: &"@ + arg_type(f) + "| {\n"@ + destructure(f) + "let __body = ||"@ + (if f.return_type.len()
            == 0 {
            seq![]
        } else {
            " -> "@ + f.return_type
        }) + " {\n"@ + f.body
            + "\n};\n::propcheck::IntoPropResult::into_prop_result(__body())\n}"@
    }
}

/// The field `key: <v><suffix>,` of the runner's configuration, when the
/// argument is set.
pub open spec fn override_line(key: Seq<char>, v: Option<u64>, suffix: Seq<char>) -> Seq<char> {
    match v {
        Some(x) => "            "@ + key + ": "@ + decimal(x as nat) + suffix + ",\n"@,
        None => seq![],
    }
}

/// The configuration fields the arguments set, in a fixed order.
pub open spec fn overrides(a: AttrArgs) -> Seq<char> {
    override_line("cases"@, a.cases, "usize"@) + override_line("seed"@, a.seed, "u64"@)
        + override_line("max_shrinks"@, a.max_shrinks, "usize"@) + override_line(
        "max_size"@,
        a.max_size,
        "usize"@,
    ) + override_line("max_discards"@, a.max_discards, "usize"@) + override_line(
        "max_skips"@,
        a.max_skips,
        "usize"@,
    )
}

/// The call of the runner: `run` with the default configuration when no
/// argument is set, `run_with` with the arguments over the default
/// configuration otherwise.
pub open spec fn invocation(f: FnView, a: AttrArgs) -> Seq<char> {
    if a.any_set_spec() {
        "::propcheck::run_with::<"@ + arg_type(f) + ", _, _>(\n"@ + debug_str_text(f.name)
            + ",\n::propcheck::Config {\n"@ + overrides(a)
            + "..::propcheck::Config::default()\n},\n"@ + inner_closure(f) + ",\n)"@
    } else {
        "::propcheck::run::<"@ + arg_type(f) + ", _, _>(\n"@ + debug_str_text(f.name) + ",\n"@
            + inner_closure(f) + ",\n)"@
    }
}

/// The `#[test]` function `#[propcheck]` writes in place of `f`.
pub open spec fn test_wrapper_text(f: FnView, a: AttrArgs) -> Seq<char> {
    "#[test]\nfn "@ + f.name + "() {\n"@ + invocation(f, a) + ";\n}"@
}

/// Appends a configuration field; see [`override_line`].
fn push_override(s: &mut String, key: &str, v: Option<u64>, suffix: &str)
    ensures
        final(s)@ == old(s)@ + override_line(key@, v, suffix@),
{
    if let Some(x) = v {
        string_push_str(s, "            ");
        string_push_str(s, key);
        string_push_str(s, ": ");
        push_decimal(s, x);
        string_push_str(s, suffix);
        string_push_str(s, ",\n");
    }
}

/// Writes the `#[test]` function for `f`; see [`test_wrapper_text`].
pub fn generate_test_wrapper(f: &ParsedFn, args: &AttrArgs) -> (r: String)
    ensures
        r@ == test_wrapper_text(f@, *args),
{
    let n = f.params.len();
    let ghost ps = field_views(f.params@);
    let mut types: Vec<String> = Vec::new();
    let mut names: Vec<String> = Vec::new();
    let mut k: usize = 0;
    while k < n
        invariant
            k <= n == f.params@.len(),
            ps == field_views(f.params@),
            string_views(types@) == ps.take(k as int).map_values(|p: FieldView| p.ty),
            string_views(names@) == ps.take(k as int).map_values(|p: FieldView| p.name),
        decreases n - k,
    {
        let t = f.params[k].ty.clone();
        let m = f.params[k].name.clone();
        proof {
            assert(ps[k as int] == f.params@[k as int]@);
            lemma_string_views_push(types@, t);
            lemma_string_views_push(names@, m);
            assert(ps.take(k + 1).map_values(|p: FieldView| p.ty) =~= ps.take(k as int).map_values(
                |p: FieldView| p.ty,
            ).push(ps[k as int].ty));
            assert(ps.take(k + 1).map_values(|p: FieldView| p.name) =~= ps.take(
                k as int,
            ).map_values(|p: FieldView| p.name).push(ps[k as int].name));
        }
        types.push(t);
        names.push(m);
        k = k + 1;
    }
    assert(ps.take(n as int) == ps);
    let (arg_ty, destructuring) = if n == 0 {
        (String::from_str("()"), String::new())
    } else if n == 1 {
        let mut d = String::from_str("let ");
        string_push_str(&mut d, f.params[0].name.as_str());
        string_push_str(&mut d, " = ::std::clone::Clone::clone(__arg);\n");
        assert(ps[0] == f.params@[0]@);
        (f.params[0].ty.clone(), d)
    } else {
        let mut t = String::from_str("(");
        let jt = join_strings(&types, ", ");
        string_push_str(&mut t, jt.as_str());
        string_push_str(&mut t, ")");
        let mut d = String::from_str("let (");
        let jn = join_strings(&names, ", ");
        string_push_str(&mut d, jn.as_str());
        string_push_str(&mut d, ") = ::std::clone::Clone::clone(__arg);\n");
        (t, d)
    };
    let no_return_type = f.return_type.as_str().is_empty();
    let mut inner = String::from_str("|__arg: &");
    string_push_str(&mut inner, arg_ty.as_str());
    string_push_str(&mut inner, "| {\n");
    string_push_str(&mut inner, destructuring.as_str());
    if f.is_async {
        string_push_str(&mut inner, "let __out: ");
        if no_return_type {
            string_push_str(&mut inner, "_");
        } else {
            string_push_str(&mut inner, f.return_type.as_str());
        }
        string_push_str(&mut inner, " = ::propcheck::block_on(async move {\n");
        string_push_str(&mut inner, f.body.as_str());
        string_push_str(
            &mut inner,
            "\n});\n::propcheck::IntoPropResult::into_prop_result(__out)\n}",
        );
    } else {
        string_push_str(&mut inner, "let __body = ||");
        if !no_return_type {
            string_push_str(&mut inner, " -> ");
            string_push_str(&mut inner, f.return_type.as_str());
        }
        string_push_str(&mut inner, " {\n");
        string_push_str(&mut inner, f.body.as_str());
        string_push_str(
            &mut inner,
            "\n};\n::propcheck::IntoPropResult::into_prop_result(__body())\n}",
        );
    }
    assert(inner@ == inner_closure(f@));
    let name_text = debug_str(f.name.as_str());
    let mut call = String::new();
    if args.any_set() {
        string_push_str(&mut call, "::propcheck::run_with::<");
        string_push_str(&mut call, arg_ty.as_str());
        string_push_str(&mut call, ", _, _>(\n");
        string_push_str(&mut call, name_text.as_str());
        string_push_str(&mut call, ",\n::propcheck::Config {\n");
        let ghost before = call@;
        push_override(&mut call, "cases", args.cases, "usize");
        push_override(&mut call, "seed", args.seed, "u64");
        push_override(&mut call, "max_shrinks", args.max_shrinks, "usize");
        push_override(&mut call, "max_size", args.max_size, "usize");
        push_override(&mut call, "max_discards", args.max_discards, "usize");
        push_override(&mut call, "max_skips", args.max_skips, "usize");
        assert(call@ == before + overrides(*args));
        string_push_str(&mut call, "..::propcheck::Config::default()\n},\n");
        string_push_str(&mut call, inner.as_str());
        string_push_str(&mut call, ",\n)");
    } else {
        string_push_str(&mut call, "::propcheck::run::<");
        string_push_str(&mut call, arg_ty.as_str());
        string_push_str(&mut call, ", _, _>(\n");
        string_push_str(&mut call, name_text.as_str());
        string_push_str(&mut call, ",\n");
        string_push_str(&mut call, inner.as_str());
        string_push_str(&mut call, ",\n)");
    }
    assert(call@ == invocation(f@, *args));
    let mut code = String::from_str("#[test]\nfn ");
    string_push_str(&mut code, f.name.as_str());
    string_push_str(&mut code, "() {\n");
    string_push_str(&mut code, call.as_str());
    string_push_str(&mut code, ";\n}");
    code
}

/// A `compile_error!` invocation that reports `msg`, with backslashes and
/// double quotes escaped for the string literal.
pub open spec fn compile_error_text(msg: Seq<char>) -> Seq<char> {
    "::std::compile_error!(\""@ + replaced(
        replaced(msg, seq!['\\'], seq!['\\', '\\']),
        seq!['"'],
        seq!['\\', '"'],
    ) + "\");"@
}

/// Writes a `compile_error!` invocation for `msg`; see
/// [`compile_error_text`].
pub fn compile_error_source(msg: &str) -> (r: String)
    ensures
        r@ == compile_error_text(msg@),
{
    let s = String::from_str(msg);
    let cs = chars_of(&s);
    let back = vec!['\\'];
    let back2 = vec!['\\', '\\'];
    let quote = vec!['"'];
    let esc_quote = vec!['\\', '"'];
    let once = replace_all(&cs, &back, &back2);
    let twice = replace_all(&once, &quote, &esc_quote);
    assert(back@ == seq!['\\']);
    assert(back2@ == seq!['\\', '\\']);
    assert(quote@ == seq!['"']);
    assert(esc_quote@ == seq!['\\', '"']);
    let escaped = string_from_chars(&twice);
    let mut out = String::from_str("::std::compile_error!(\"");
    string_push_str(&mut out, escaped.as_str());
    string_push_str(&mut out, "\");");
    out
}

/// What `#[derive(Arbitrary)]` writes for the item with tokens `ts`: the
/// implementation for the struct or enum, or a `compile_error!` with the
/// message for what could not be read.
pub open spec fn derive_arbitrary_text(ts: Seq<Token>) -> Seq<char> {
    match parsed_input(ts) {
        Ok(ItemView::Struct(s)) => struct_impl_text(s),
        Ok(ItemView::Enum(e)) => enum_impl_text(e),
        Err(m) => compile_error_text(m),
    }
}

/// `#[derive(Arbitrary)]`: the source text of the `Arbitrary`
/// implementation for the struct or enum with tokens `input`; see
/// [`derive_arbitrary_text`].
pub fn derive_arbitrary(input: &Vec<Token>) -> (r: String)
    ensures
        r@ == derive_arbitrary_text(input@),
{
    match parse_input(input) {
        Ok(ParsedItem::Struct(s)) => generate_arbitrary_impl(&s),
        Ok(ParsedItem::Enum(e)) => generate_arbitrary_impl_enum(&e),
        Err(e) => compile_error_source(e.as_str()),
    }
}

/// What `#[propcheck(<attr>)]` writes for the function with tokens `item`:
/// the `#[test]` wrapper, or a `compile_error!` with the message for the
/// arguments, or else the function, that could not be read.
pub open spec fn propcheck_text(attr: Seq<Token>, item: Seq<Token>) -> Seq<char> {
    match attr_args(attr) {
        Err(e) => compile_error_text(e),
        Ok(a) => match parsed_fn(item) {
            Ok(f) => test_wrapper_text(f, a),
            Err(e) => compile_error_text(e),
        },
    }
}

/// `#[propcheck]`: the source text of the `#[test]` function that runs the
/// function with tokens `item` as a property, configured by the attribute
/// arguments with tokens `attr`; see [`propcheck_text`].
pub fn propcheck(attr: &Vec<Token>, item: &Vec<Token>) -> (r: String)
    ensures
        r@ == propcheck_text(attr@, item@),
{
    let args = match parse_attr_args(attr) {
        Ok(a) => a,
        Err(e) => {
            return compile_error_source(e.as_str());
        },
    };
    match parse_fn(item) {
        Ok(f) => generate_test_wrapper(&f, &args),
        Err(e) => compile_error_source(e.as_str()),
    }
}

} // verus!
