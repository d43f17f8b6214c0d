use propcheck::derive::{range_string, token_string, Delim, Spacing, Token};
use propcheck::derive_attr::{compile_error_source, derive_arbitrary, parse_attr_args, parse_fn, propcheck, AttrArgs};
use propcheck::derive_parse::{
    parse_enum_variants, parse_generics, parse_input, parse_named_fields, parse_optional_where,
    parse_tuple_fields, skip_attrs_and_visibility, try_parse_arbitrary_attr, Fields, ParsedItem,
};
use propcheck::text::replace_all;

fn id(s: &str) -> Token {
    Token::Ident(s.to_string())
}

fn p(c: char) -> Token {
    Token::Punct(c, Spacing::Alone)
}

fn pj(c: char) -> Token {
    Token::Punct(c, Spacing::Joint)
}

fn lit(s: &str) -> Token {
    Token::Literal(s.to_string())
}

fn group(d: Delim, ts: Vec<Token>) -> Token {
    Token::Group(d, ts)
}

fn brace(ts: Vec<Token>) -> Token {
    group(Delim::Brace, ts)
}

fn paren(ts: Vec<Token>) -> Token {
    group(Delim::Parenthesis, ts)
}

fn bracket(ts: Vec<Token>) -> Token {
    group(Delim::Bracket, ts)
}

const ARB: &str = "<_ as ::propcheck::Arbitrary>::arbitrary(rng, size)";
const HEAD: &str = "let mut __out: ::std::vec::Vec<Self> = ::std::vec::Vec::new();\n";
const TAIL: &str = "__out";

fn impl_text(decl: &str, self_ty: &str, where_clause: &str, arbitrary: &str, shrink: &str) -> String {
    format!(
        "impl{decl} ::propcheck::Arbitrary for {self_ty} {where_clause} {{\n\
         fn arbitrary<__R: ::propcheck::Rng>(rng: &mut __R, size: usize) -> Self {{\n\
         {arbitrary}\n}}\n\
         fn shrink(&self) -> ::std::vec::Vec<Self> {{\n\
         {shrink}\n}}\n}}"
    )
}

#[test]
fn token_text_joins_joint_punctuation() {
    let ts = vec![id("a"), pj(':'), p(':'), id("b"), pj('-'), p('>'), paren(vec![id("x"), p(','), id("y")])];
    assert_eq!(range_string(&ts, 0, ts.len()), "a :: b -> (x , y)");
    assert_eq!(range_string(&ts, 3, 4), "b");
    assert_eq!(token_string(&bracket(vec![])), "[]");
    assert_eq!(token_string(&group(Delim::Invisible, vec![id("q")])), "q");
}

#[test]
fn attributes_and_visibility_are_skipped() {
    let ts = vec![
        p('#'),
        bracket(vec![id("doc")]),
        id("pub"),
        paren(vec![id("crate")]),
        id("struct"),
    ];
    assert_eq!(skip_attrs_and_visibility(&ts, 0), 4);
    assert_eq!(skip_attrs_and_visibility(&ts, 4), 4);
}

#[test]
fn derive_named_struct_writes_field_by_field_impl() {
    let ts = vec![
        id("pub"),
        id("struct"),
        id("Point"),
        brace(vec![id("x"), p(':'), id("u8"), p(','), id("y"), p(':'), id("u16")]),
    ];
    let shrink = format!(
        "{HEAD}for __s in ::propcheck::Arbitrary::shrink(&self.x) {{\n  __out.push(Self {{ x: __s, y: ::std::clone::Clone::clone(&self.y) }});\n}}\n\
         for __s in ::propcheck::Arbitrary::shrink(&self.y) {{\n  __out.push(Self {{ y: __s, x: ::std::clone::Clone::clone(&self.x) }});\n}}\n{TAIL}"
    );
    let expected = impl_text("", "Point", "", &format!("Point {{x: {ARB}, y: {ARB}}}"), &shrink);
    assert_eq!(derive_arbitrary(&ts), expected);
}

#[test]
fn derive_tuple_struct_clones_the_other_fields() {
    let ts = vec![id("struct"), id("Pair"), paren(vec![id("u32"), p(','), id("bool")]), p(';')];
    let shrink = format!(
        "{HEAD}for __s in ::propcheck::Arbitrary::shrink(&self.0) {{\n  __out.push(Self(__s, ::std::clone::Clone::clone(&self.1)));\n}}\n\
         for __s in ::propcheck::Arbitrary::shrink(&self.1) {{\n  __out.push(Self(::std::clone::Clone::clone(&self.0), __s));\n}}\n{TAIL}"
    );
    let expected = impl_text("", "Pair", "", &format!("Pair({ARB}, {ARB})"), &shrink);
    assert_eq!(derive_arbitrary(&ts), expected);
}

#[test]
fn derive_unit_struct_has_no_shrink_candidates() {
    let ts = vec![id("struct"), id("Unit"), p(';')];
    let expected = impl_text("", "Unit", "", "Unit", "::std::vec::Vec::new()");
    assert_eq!(derive_arbitrary(&ts), expected);
}

#[test]
fn derive_generic_struct_bounds_each_type_parameter() {
    // struct Wrapper<'a, T: Clone, const N: usize> where T: Send { inner: T }
    let ts = vec![
        id("struct"),
        id("Wrapper"),
        p('<'),
        pj('\''),
        id("a"),
        p(','),
        id("T"),
        p(':'),
        id("Clone"),
        p(','),
        id("const"),
        id("N"),
        p(':'),
        id("usize"),
        p('>'),
        id("where"),
        id("T"),
        p(':'),
        id("Send"),
        brace(vec![id("inner"), p(':'), id("T")]),
    ];
    let shrink = format!(
        "{HEAD}for __s in ::propcheck::Arbitrary::shrink(&self.inner) {{\n  __out.push(Self {{ inner: __s }});\n}}\n{TAIL}"
    );
    let expected = impl_text(
        "<'a, T : Clone, const N : usize>",
        "Wrapper<'a, T, N>",
        "where T: ::propcheck::Arbitrary + ::std::clone::Clone, T : Send",
        &format!("Wrapper {{inner: {ARB}}}"),
        &shrink,
    );
    assert_eq!(derive_arbitrary(&ts), expected);
}

#[test]
fn generics_parameters_split_at_outer_commas() {
    // <K, V: Into<Vec<u8, A>>>
    let ts = vec![
        p('<'),
        id("K"),
        p(','),
        id("V"),
        p(':'),
        id("Into"),
        p('<'),
        id("Vec"),
        p('<'),
        id("u8"),
        p(','),
        id("A"),
        p('>'),
        p('>'),
        p('>'),
        id("rest"),
    ];
    let (decl, uses, types, next) = parse_generics(&ts, 0).unwrap();
    assert_eq!(decl, "K, V : Into < Vec < u8 , A > >");
    assert_eq!(uses, "K, V");
    assert_eq!(types, vec!["K".to_string(), "V".to_string()]);
    assert_eq!(next, 15);
    let unterminated = vec![p('<'), id("T")];
    assert_eq!(parse_generics(&unterminated, 0).unwrap_err(), "unterminated generics `<...>`");
    let none = vec![id("T")];
    assert_eq!(parse_generics(&none, 0).unwrap(), (String::new(), String::new(), vec![], 0));
}

#[test]
fn where_clause_runs_to_the_body() {
    let ts = vec![id("where"), id("T"), p(':'), id("Copy"), brace(vec![])];
    assert_eq!(parse_optional_where(&ts, 0), ("T : Copy".to_string(), 4));
    assert_eq!(parse_optional_where(&ts, 1), (String::new(), 1));
}

#[test]
fn field_strategy_attribute_is_read_and_unquoted() {
    let attr = vec![
        id("arbitrary"),
        paren(vec![id("strategy"), p('='), lit("\"int_range(0u8, 10) \\\"x\\\\\"")]),
    ];
    assert_eq!(try_parse_arbitrary_attr(&attr), Some("int_range(0u8, 10) \"x\\".to_string()));
    let bare = vec![id("arbitrary"), paren(vec![id("strategy"), p('='), id("any"), pj(':'), p(':'), id("u8")])];
    assert_eq!(try_parse_arbitrary_attr(&bare), Some("any :: u8".to_string()));
    let other = vec![id("serde"), paren(vec![id("skip")])];
    assert_eq!(try_parse_arbitrary_attr(&other), None);
}

#[test]
fn derive_uses_field_strategy_expressions() {
    let ts = vec![
        id("struct"),
        id("S"),
        brace(vec![
            p('#'),
            bracket(vec![id("arbitrary"), paren(vec![id("strategy"), p('='), lit("\"just(1)\"")])]),
            id("pub"),
            id("a"),
            p(':'),
            id("u8"),
        ]),
    ];
    let value = "{ let __strat = (just(1)); let mut __g = ::propcheck::XorShift64::seed_from_u64(::propcheck::Rng::next_u64(rng)); match ::propcheck::Strategy::new_value(&__strat, &mut __g, size) { ::std::result::Result::Ok(__v) => __v, ::std::result::Result::Err(__e) => ::std::panic!(\"{}\", __e) } }";
    let shrink = format!(
        "{HEAD}for __s in {{ let __strat = (just(1)); ::propcheck::Strategy::shrink_value(&__strat, &self.a) }} {{\n  __out.push(Self {{ a: __s }});\n}}\n{TAIL}"
    );
    let expected = impl_text("", "S", "", &format!("S {{a: {value}}}"), &shrink);
    assert_eq!(derive_arbitrary(&ts), expected);
}

#[test]
fn named_fields_report_what_is_out_of_place() {
    let missing_colon = vec![id("a"), id("u8")];
    assert_eq!(parse_named_fields(&missing_colon).unwrap_err(), "expected `:` after field name, found `u8`");
    let no_colon = vec![id("a")];
    assert_eq!(parse_named_fields(&no_colon).unwrap_err(), "expected `:` after field name");
    let bad_name = vec![lit("1"), p(':'), id("u8")];
    assert_eq!(parse_named_fields(&bad_name).unwrap_err(), "expected field name, found `1`");
    let fine = vec![id("a"), p(':'), id("Vec"), p('<'), id("u8"), p('>'), p(','), id("b"), p(':'), id("bool"), p(',')];
    let fs = parse_named_fields(&fine).unwrap();
    assert_eq!(fs.len(), 2);
    assert_eq!(fs[0].ty, "Vec < u8 >");
    assert_eq!(fs[1].name, "b");
}

#[test]
fn tuple_fields_stop_at_an_empty_field() {
    let ts = vec![id("u8"), p(','), p(','), id("u16")];
    let fs = parse_tuple_fields(&ts);
    assert_eq!(fs.len(), 1);
    assert_eq!(fs[0].ty, "u8");
    assert_eq!(fs[0].name, "");
}

#[test]
fn derive_enum_collapses_to_first_unit_variant() {
    // enum Shape { Point(u8), Empty, Rect { w: u8 }, None }
    let ts = vec![
        id("enum"),
        id("Shape"),
        brace(vec![
            id("Point"),
            paren(vec![id("u8")]),
            p(','),
            id("Empty"),
            p(','),
            id("Rect"),
            brace(vec![id("w"), p(':'), id("u8")]),
            p(','),
            id("None"),
        ]),
    ];
    let arbitrary = format!(
        "let __pick = ::propcheck::Rng::gen_range_u64(rng, 0, 4u64);\nmatch __pick {{\n\
         \x20           0u64 => Shape::Point({ARB}),\n\
         \x20           1u64 => Shape::Empty,\n\
         \x20           2u64 => Shape::Rect {{ w: {ARB} }},\n\
         \x20           3u64 => Shape::None,\n\
         _ => unreachable!(),\n}}"
    );
    let shrink = format!(
        "{HEAD}match self {{\n            Shape::Empty => {{}}\n            _ => __out.push(Shape::Empty),\n        }}\n\
         match self {{\n\
         \x20       Shape::Point(__f0) => {{\n            for __s in ::propcheck::Arbitrary::shrink(__f0) {{\n            __out.push(Shape::Point(__s));\n        }}\n        }}\n\
         \x20       Shape::Empty => {{\n            /* a unit variant has nothing to shrink */        }}\n\
         \x20       Shape::Rect {{ w }} => {{\n            for __s in ::propcheck::Arbitrary::shrink(w) {{\n            __out.push(Shape::Rect {{ w: __s }});\n        }}\n        }}\n\
         \x20       Shape::None => {{\n            /* a unit variant has nothing to shrink */        }}\n\
         }}\n{TAIL}"
    );
    let expected = impl_text("", "Shape", "", &arbitrary, &shrink);
    assert_eq!(derive_arbitrary(&ts), expected);
}

#[test]
fn derive_enum_without_unit_variant_has_no_collapse() {
    let ts = vec![
        id("enum"),
        id("E"),
        p('<'),
        id("T"),
        p('>'),
        brace(vec![id("A"), paren(vec![id("T"), p(','), id("u8")])]),
    ];
    let out = derive_arbitrary(&ts);
    assert!(out.starts_with("impl<T> ::propcheck::Arbitrary for E<T> where T: ::propcheck::Arbitrary + ::std::clone::Clone {\n"));
    assert!(!out.contains("_ => __out.push("));
    assert!(out.contains("E::A(__f0, __f1) => {"));
    assert!(out.contains("__out.push(E::A(__s, ::std::clone::Clone::clone(__f1)));"));
    assert!(out.contains("__out.push(E::A(::std::clone::Clone::clone(__f0), __s));"));
    assert!(out.contains("gen_range_u64(rng, 0, 1u64)"));
}

#[test]
fn enum_variants_are_read_in_order() {
    let body = vec![
        p('#'),
        bracket(vec![id("default")]),
        id("A"),
        p(','),
        id("B"),
        brace(vec![id("x"), p(':'), id("i8")]),
        p(','),
        id("C"),
        paren(vec![id("u8")]),
    ];
    let vs = parse_enum_variants(&body).unwrap();
    assert_eq!(vs.len(), 3);
    assert_eq!(vs[0].name, "A");
    assert!(matches!(vs[0].fields, Fields::Unit));
    assert!(matches!(&vs[1].fields, Fields::Named(fs) if fs.len() == 1 && fs[0].ty == "i8"));
    assert!(matches!(&vs[2].fields, Fields::Unnamed(fs) if fs.len() == 1));
    let bad = vec![lit("1")];
    assert_eq!(parse_enum_variants(&bad).unwrap_err(), "expected variant name, found `1`");
}

#[test]
fn derive_reports_unsupported_items() {
    let union_item = vec![id("union"), id("U"), brace(vec![])];
    assert_eq!(
        parse_input(&union_item).unwrap_err(),
        "#[derive(Arbitrary)] only supports `struct` and `enum`, got `union`"
    );
    let empty_enum = vec![id("enum"), id("Never"), brace(vec![])];
    assert_eq!(
        parse_input(&empty_enum).unwrap_err(),
        "#[derive(Arbitrary)] needs at least one variant on an enum"
    );
    assert_eq!(parse_input(&vec![]).unwrap_err(), "expected `struct` or `enum`");
    assert_eq!(parse_input(&vec![p('!')]).unwrap_err(), "expected `struct` or `enum`, found `!`");
    assert_eq!(parse_input(&vec![id("struct")]).unwrap_err(), "expected type name");
    assert_eq!(parse_input(&vec![id("struct"), lit("1")]).unwrap_err(), "expected identifier, found `1`");
    assert_eq!(parse_input(&vec![id("struct"), id("S")]).unwrap_err(), "expected struct body");
    assert_eq!(
        parse_input(&vec![id("struct"), id("S"), id("x")]).unwrap_err(),
        "expected struct body or `;`, found `x`"
    );
    assert_eq!(parse_input(&vec![id("enum"), id("E")]).unwrap_err(), "expected enum body");
    assert_eq!(
        parse_input(&vec![id("enum"), id("E"), p(';')]).unwrap_err(),
        "expected enum body `{ ... }`, found `;`"
    );
    assert_eq!(
        derive_arbitrary(&union_item),
        "::std::compile_error!(\"#[derive(Arbitrary)] only supports `struct` and `enum`, got `union`\");"
    );
    assert!(matches!(parse_input(&vec![id("struct"), id("S"), p(';')]), Ok(ParsedItem::Struct(_))));
}

#[test]
fn compile_error_escapes_quotes_and_backslashes() {
    assert_eq!(compile_error_source("a \"b\" \\c"), "::std::compile_error!(\"a \\\"b\\\" \\\\c\");");
}

#[test]
fn replace_all_takes_occurrences_from_the_front() {
    let s: Vec<char> = "aaa".chars().collect();
    let pat: Vec<char> = "aa".chars().collect();
    let rep: Vec<char> = "b".chars().collect();
    assert_eq!(replace_all(&s, &pat, &rep).into_iter().collect::<String>(), "ba");
}

#[test]
fn attribute_arguments_are_read() {
    let ts = vec![id("cases"), p('='), lit("10"), p(','), id("seed"), p('='), lit("42"), p(','), id("cases"), p('='), lit("+7")];
    let a = parse_attr_args(&ts).unwrap();
    assert_eq!(
        a,
        AttrArgs { cases: Some(7), seed: Some(42), max_shrinks: None, max_size: None, max_discards: None, max_skips: None }
    );
    assert!(a.any_set());
    let none = parse_attr_args(&vec![]).unwrap();
    assert!(!none.any_set());
}

#[test]
fn attribute_argument_errors_name_the_key() {
    assert_eq!(
        parse_attr_args(&vec![id("bogus"), p('='), lit("1")]).unwrap_err(),
        "unknown #[propcheck] argument: `bogus`"
    );
    assert_eq!(
        parse_attr_args(&vec![id("cases"), p('='), lit("10u64")]).unwrap_err(),
        "invalid integer literal for `cases` (\"10u64\"): invalid digit found in string"
    );
    assert_eq!(
        parse_attr_args(&vec![id("seed"), p('='), lit("18446744073709551616")]).unwrap_err(),
        "invalid integer literal for `seed` (\"18446744073709551616\"): number too large to fit in target type"
    );
    assert_eq!(parse_attr_args(&vec![id("cases")]).unwrap_err(), "expected `=` after `cases`, found ``");
    assert_eq!(parse_attr_args(&vec![id("cases"), p(':')]).unwrap_err(), "expected `=` after `cases`, found `:`");
    assert_eq!(parse_attr_args(&vec![id("cases"), p('=')]).unwrap_err(), "expected value for `cases`");
    assert_eq!(
        parse_attr_args(&vec![id("cases"), p('='), id("ten")]).unwrap_err(),
        "expected integer literal for `cases`, found `ten`"
    );
    assert_eq!(parse_attr_args(&vec![lit("1")]).unwrap_err(), "expected key identifier, found `1`");
}

#[test]
fn test_function_is_read() {
    // #[doc] pub async fn prop(x: u8, y: bool) -> Result<(), String> { body }
    let ts = vec![
        p('#'),
        bracket(vec![id("doc")]),
        id("pub"),
        id("async"),
        id("fn"),
        id("prop"),
        paren(vec![id("x"), p(':'), id("u8"), p(','), id("y"), p(':'), id("bool")]),
        pj('-'),
        p('>'),
        id("Result"),
        p('<'),
        paren(vec![]),
        p(','),
        id("String"),
        p('>'),
        brace(vec![id("body")]),
    ];
    let f = parse_fn(&ts).unwrap();
    assert_eq!(f.name, "prop");
    assert!(f.is_async);
    assert_eq!(f.params.len(), 2);
    assert_eq!(f.return_type, "Result < () , String >");
    assert_eq!(f.body, "body");
}

#[test]
fn test_function_errors() {
    assert_eq!(parse_fn(&vec![id("struct"), p(';')]).unwrap_err(), "expected `fn`, found `;`");
    assert_eq!(parse_fn(&vec![]).unwrap_err(), "expected `fn`, found ``");
    assert_eq!(parse_fn(&vec![id("fn")]).unwrap_err(), "expected function name");
    assert_eq!(
        parse_fn(&vec![id("fn"), id("f"), p('<')]).unwrap_err(),
        "generic test functions are not supported by #[propcheck]"
    );
    assert_eq!(parse_fn(&vec![id("fn"), id("f"), brace(vec![])]).unwrap_err(), "expected `(...)` parameter list");
    assert_eq!(
        parse_fn(&vec![id("fn"), id("f"), paren(vec![]), p('-'), id("u8")]).unwrap_err(),
        "expected `->` in return type"
    );
    assert_eq!(parse_fn(&vec![id("fn"), id("f"), paren(vec![])]).unwrap_err(), "expected function body `{ ... }`");
    let ext = vec![id("unsafe"), id("extern"), lit("\"C\""), id("fn"), id("f"), paren(vec![]), brace(vec![])];
    assert!(parse_fn(&ext).is_ok());
}

#[test]
fn propcheck_wraps_function_in_test() {
    let item = vec![
        id("fn"),
        id("holds"),
        paren(vec![id("x"), p(':'), id("u8")]),
        brace(vec![id("check"), paren(vec![id("x")])]),
    ];
    let expected = "#[test]\nfn holds() {\n::propcheck::run::<u8, _, _>(\n\"holds\",\n\
                    |__arg: &u8| {\nlet x = ::std::clone::Clone::clone(__arg);\nlet __body = || {\ncheck (x)\n};\n\
                    ::propcheck::IntoPropResult::into_prop_result(__body())\n},\n);\n}";
    assert_eq!(propcheck(&vec![], &item), expected);
}

#[test]
fn propcheck_with_arguments_overrides_config() {
    let attr = vec![id("seed"), p('='), lit("5"), p(','), id("cases"), p('='), lit("3")];
    let item = vec![
        id("async"),
        id("fn"),
        id("both"),
        paren(vec![id("a"), p(':'), id("u8"), p(','), id("b"), p(':'), id("u16")]),
        brace(vec![]),
    ];
    let expected = "#[test]\nfn both() {\n::propcheck::run_with::<(u8, u16), _, _>(\n\"both\",\n::propcheck::Config {\n\
                    \x20           cases: 3usize,\n            seed: 5u64,\n..::propcheck::Config::default()\n},\n\
                    |__arg: &(u8, u16)| {\nlet (a, b) = ::std::clone::Clone::clone(__arg);\nlet __out: _ = ::propcheck::block_on(async move {\n\n});\n\
                    ::propcheck::IntoPropResult::into_prop_result(__out)\n},\n);\n}";
    assert_eq!(propcheck(&attr, &item), expected);
    let bad = vec![id("cases")];
    assert_eq!(propcheck(&bad, &item), "::std::compile_error!(\"expected `=` after `cases`, found ``\");");
}

#[test]
fn propcheck_without_parameters_generates_unit() {
    let item = vec![id("fn"), id("none"), paren(vec![]), pj('-'), p('>'), id("bool"), brace(vec![id("true")])];
    let out = propcheck(&vec![], &item);
    assert!(out.contains("::propcheck::run::<(), _, _>("));
    assert!(out.contains("|__arg: &()| {\nlet __body = || -> bool {\ntrue\n};"));
}
