//! The source text of the `Arbitrary` implementation that
//! `#[derive(Arbitrary)]` writes for a struct or an enum.
use vstd::prelude::*;
use crate::derive_parse::{
    EnumView, FieldInfo, FieldView, Fields, FieldsView, ParsedEnum, ParsedStruct, StructView,
    Variant, VariantView, field_views, opt_text, variant_views,
};
use crate::text::{
    decimal, join_strings, joined, lemma_string_views_push, push_decimal, string_push_str,
    string_views,
};

verus! {

/// The expression that generates a field: its type's `Arbitrary` from the
/// caller's generator; or, for a field with a strategy, the strategy run on
/// a generator seeded with the caller's next word (strategies run on
/// [`XorShift64`](crate::rng::XorShift64)), a panic when it gives no value.
pub open spec fn field_value(strategy: Option<Seq<char>>) -> Seq<char> {
    match strategy {
        Some(expr) => "{ let __strat = ("@ + expr
            + "); let mut __g = ::propcheck::XorShift64::seed_from_u64(::propcheck::Rng::next_u64(rng)); match ::propcheck::Strategy::new_value(&__strat, &mut __g, size) { ::std::result::Result::Ok(__v) => __v, ::std::result::Result::Err(__e) => ::std::panic!(\"{}\", __e) } }"@,
        None => "<_ as ::propcheck::Arbitrary>::arbitrary(rng, size)"@,
    }
}

/// Writes the expression that generates a field; see [`field_value`].
pub fn gen_field_value(strategy: &Option<String>) -> (r: String)
    ensures
        r@ == field_value(opt_text(*strategy)),
{
    match strategy {
        Some(expr) => {
            let mut s = String::from_str("{ let __strat = (");
            string_push_str(&mut s, expr.as_str());
            string_push_str(&mut s, "); let mut __g = ::propcheck::XorShift64::seed_from_u64(::propcheck::Rng::next_u64(rng)); match ::propcheck::Strategy::new_value(&__strat, &mut __g, size) { ::std::result::Result::Ok(__v) => __v, ::std::result::Result::Err(__e) => ::std::panic!(\"{}\", __e) } }");
            s
        },
        None => String::from_str("<_ as ::propcheck::Arbitrary>::arbitrary(rng, size)"),
    }
}

/// The expression for the shrink candidates of a field read from
/// `access`: through the field's strategy when it has one, its type's
/// `Arbitrary` otherwise.
pub open spec fn field_shrink_iter(strategy: Option<Seq<char>>, access: Seq<char>) -> Seq<char> {
    match strategy {
        Some(expr) => "{ let __strat = ("@ + expr
            + "); ::propcheck::Strategy::shrink_value(&__strat, &"@ + access + ") }"@,
        None => "::propcheck::Arbitrary::shrink(&"@ + access + ")"@,
    }
}

/// Writes the expression for the shrink candidates of a field; see
/// [`field_shrink_iter`].
pub fn gen_field_shrink_iter(strategy: &Option<String>, access: &str) -> (r: String)
    ensures
        r@ == field_shrink_iter(opt_text(*strategy), access@),
{
    match strategy {
        Some(expr) => {
            let mut s = String::from_str("{ let __strat = (");
            string_push_str(&mut s, expr.as_str());
            string_push_str(&mut s, "); ::propcheck::Strategy::shrink_value(&__strat, &");
            string_push_str(&mut s, access);
            string_push_str(&mut s, ") }");
            s
        },
        None => {
            let mut s = String::from_str("::propcheck::Arbitrary::shrink(&");
            string_push_str(&mut s, access);
            string_push_str(&mut s, ")");
            s
        },
    }
}

/// The bounds of the `where` clause: `T: ::propcheck::Arbitrary +
/// ::std::clone::Clone` for each type parameter, then the item's own bounds
/// if it has any.
pub open spec fn where_pieces(type_params: Seq<Seq<char>>, where_extra: Seq<char>) -> Seq<Seq<char>> {
    type_params.map_values(|p: Seq<char>| p + ": ::propcheck::Arbitrary + ::std::clone::Clone"@) + if where_extra.len()
        == 0 {
        Seq::<Seq<char>>::empty()
    } else {
        seq![where_extra]
    }
}

/// The `where` clause of the implementation; empty when it has no bounds.
pub open spec fn where_text(type_params: Seq<Seq<char>>, where_extra: Seq<char>) -> Seq<char> {
    let pieces = where_pieces(type_params, where_extra);
    if pieces.len() == 0 {
        seq![]
    } else {
        "where "@ + joined(pieces, ", "@)
    }
}

/// Writes the `where` clause of the implementation; see [`where_text`].
pub fn gen_where(type_params: &Vec<String>, where_extra: &String) -> (r: String)
    ensures
        r@ == where_text(string_views(type_params@), where_extra@),
{
    let ghost tps = string_views(type_params@);
    let mut pieces: Vec<String> = Vec::new();
    let mut k: usize = 0;
    while k < type_params.len()
        invariant
            k <= type_params@.len(),
            tps == string_views(type_params@),
            string_views(pieces@) == tps.take(k as int).map_values(
                |p: Seq<char>| p + ": ::propcheck::Arbitrary + ::std::clone::Clone"@,
            ),
        decreases type_params@.len() - k,
    {
        let mut piece = type_params[k].clone();
        string_push_str(&mut piece, ": ::propcheck::Arbitrary + ::std::clone::Clone");
        proof {
            lemma_string_views_push(pieces@, piece);
            assert(tps.take(k + 1).map_values(|p: Seq<char>| p + ": ::propcheck::Arbitrary + ::std::clone::Clone"@)
                =~= tps.take(k as int).map_values(|p: Seq<char>| p + ": ::propcheck::Arbitrary + ::std::clone::Clone"@).push(
                piece@,
            ));
        }
        pieces.push(piece);
        k = k + 1;
    }
    assert(tps.take(type_params@.len() as int) == tps);
    if !where_extra.as_str().is_empty() {
        let extra = where_extra.clone();
        proof {
            lemma_string_views_push(pieces@, extra);
        }
        pieces.push(extra);
    }
    assert(string_views(pieces@) =~= where_pieces(tps, where_extra@));
    if pieces.len() == 0 {
        String::new()
    } else {
        let mut s = String::from_str("where ");
        let j = join_strings(&pieces, ", ");
        string_push_str(&mut s, j.as_str());
        s
    }
}

/// `<s>`, or nothing for empty `s`.
pub open spec fn angled(s: Seq<char>) -> Seq<char> {
    if s.len() == 0 {
        seq![]
    } else {
        "<"@ + s + ">"@
    }
}

/// Writes `<s>`, or nothing for empty `s`.
pub fn gen_angled(s: &String) -> (r: String)
    ensures
        r@ == angled(s@),
{
    if s.as_str().is_empty() {
        String::new()
    } else {
        let mut r = String::from_str("<");
        string_push_str(&mut r, s.as_str());
        string_push_str(&mut r, ">");
        r
    }
}

/// The text of an `Arbitrary` implementation with generics `decl`, for the
/// type `self_ty`, with `where` clause `where_clause`, whose `arbitrary`
/// body is `arbitrary_body` and whose `shrink` body is `shrink_body`.
pub open spec fn impl_text(
    decl: Seq<char>,
    self_ty: Seq<char>,
    where_clause: Seq<char>,
    arbitrary_body: Seq<char>,
    shrink_body: Seq<char>,
) -> Seq<char> {
    "impl"@ + decl + " ::propcheck::Arbitrary for "@ + self_ty + " "@ + where_clause + " {\n"@
        + "fn arbitrary<__R: ::propcheck::Rng>(rng: &mut __R, size: usize) -> Self {\n"@
        + arbitrary_body + "\n}\n"@
        + "fn shrink(&self) -> ::std::vec::Vec<Self> {\n"@
        + shrink_body + "\n}\n}"@
}

/// Writes an `Arbitrary` implementation; see [`impl_text`].
pub fn gen_impl(
    decl: &String,
    self_ty: &String,
    where_clause: &String,
    arbitrary_body: &String,
    shrink_body: &String,
) -> (r: String)
    ensures
        r@ == impl_text(decl@, self_ty@, where_clause@, arbitrary_body@, shrink_body@),
{
    let mut s = String::from_str("impl");
    string_push_str(&mut s, decl.as_str());
    string_push_str(&mut s, " ::propcheck::Arbitrary for ");
    string_push_str(&mut s, self_ty.as_str());
    string_push_str(&mut s, " ");
    string_push_str(&mut s, where_clause.as_str());
    string_push_str(&mut s, " {\n");
    string_push_str(
        &mut s,
        "fn arbitrary<__R: ::propcheck::Rng>(rng: &mut __R, size: usize) -> Self {\n",
    );
    string_push_str(&mut s, arbitrary_body.as_str());
    string_push_str(&mut s, "\n}\n");
    string_push_str(
        &mut s,
        "fn shrink(&self) -> ::std::vec::Vec<Self> {\n",
    );
    string_push_str(&mut s, shrink_body.as_str());
    string_push_str(&mut s, "\n}\n}");
    s
}

/// The initializer `name: <value>` of a named field.
pub open spec fn named_init(f: FieldView) -> Seq<char> {
    f.name + ": "@ + field_value(f.strategy)
}

/// `, name: ::std::clone::Clone::clone(&self.name)` for each of the first
/// `n` fields except the one at `idx`.
pub open spec fn other_clones(fs: Seq<FieldView>, idx: int, n: int) -> Seq<char>
    decreases n,
{
    if n <= 0 {
        seq![]
    } else {
        other_clones(fs, idx, n - 1) + if n - 1 == idx {
            seq![]
        } else {
            ", "@ + fs[n - 1].name + ": ::std::clone::Clone::clone(&self."@ + fs[n - 1].name + ")"@
        }
    }
}

/// The part of a named struct's `shrink` that shrinks the field at `idx`
/// and keeps clones of the others.
pub open spec fn named_struct_step(fs: Seq<FieldView>, idx: int) -> Seq<char> {
    "for __s in "@ + field_shrink_iter(fs[idx].strategy, "self."@ + fs[idx].name)
        + " {\n  __out.push(Self { "@ + fs[idx].name + ": __s"@ + other_clones(fs, idx, fs.len() as int)
        + " });\n}\n"@
}

/// The argument at `j` of the tuple struct built while the field at `idx`
/// shrinks.
pub open spec fn tuple_arg(idx: int, j: int) -> Seq<char> {
    if j == idx {
        "__s"@
    } else {
        "::std::clone::Clone::clone(&self."@ + decimal(j as nat) + ")"@
    }
}

/// The first `n` arguments of the tuple struct built while the field at
/// `idx` shrinks, joined with `, `.
pub open spec fn tuple_args(idx: int, n: int) -> Seq<char>
    decreases n,
{
    if n <= 0 {
        seq![]
    } else if n == 1 {
        tuple_arg(idx, 0)
    } else {
        tuple_args(idx, n - 1) + ", "@ + tuple_arg(idx, n - 1)
    }
}

/// The part of a tuple struct's `shrink` that shrinks the field at `idx`.
pub open spec fn tuple_struct_step(fs: Seq<FieldView>, idx: int) -> Seq<char> {
    "for __s in "@ + field_shrink_iter(fs[idx].strategy, "self."@ + decimal(idx as nat))
        + " {\n  __out.push(Self("@ + tuple_args(idx, fs.len() as int) + "));\n}\n"@
}

/// The parts of a struct's `shrink` for its first `n` fields.
pub open spec fn struct_steps(fields: FieldsView, n: int) -> Seq<char>
    decreases n,
{
    if n <= 0 {
        seq![]
    } else {
        struct_steps(fields, n - 1) + match fields {
            FieldsView::Named(fs) => named_struct_step(fs, n - 1),
            FieldsView::Unnamed(fs) => tuple_struct_step(fs, n - 1),
            FieldsView::Unit => seq![],
        }
    }
}

/// A `shrink` body that collects candidates with `steps`.
pub open spec fn collecting_body(steps: Seq<char>) -> Seq<char> {
    "let mut __out: ::std::vec::Vec<Self> = ::std::vec::Vec::new();\n"@ + steps
        + "__out"@
}

/// The `arbitrary` body of a struct named `name`: each field generated.
pub open spec fn struct_constructor(name: Seq<char>, fields: FieldsView) -> Seq<char> {
    match fields {
        FieldsView::Unit => name,
        FieldsView::Named(fs) => name + " {"@ + joined(fs.map_values(|f: FieldView| named_init(f)), ", "@)
            + "}"@,
        FieldsView::Unnamed(fs) => name + "("@ + joined(
            fs.map_values(|f: FieldView| field_value(f.strategy)),
            ", "@,
        ) + ")"@,
    }
}

/// The `shrink` body of a struct: no candidates for a unit struct; for
/// others, each field shrunk in turn with the other fields cloned.
pub open spec fn struct_shrink_body(fields: FieldsView) -> Seq<char> {
    match fields {
        FieldsView::Unit => "::std::vec::Vec::new()"@,
        FieldsView::Named(fs) => collecting_body(struct_steps(fields, fs.len() as int)),
        FieldsView::Unnamed(fs) => collecting_body(struct_steps(fields, fs.len() as int)),
    }
}

/// The `Arbitrary` implementation `#[derive(Arbitrary)]` writes for a
/// struct.
pub open spec fn struct_impl_text(s: StructView) -> Seq<char> {
    impl_text(
        angled(s.generics_decl),
        s.name + angled(s.generics_use),
        where_text(s.type_params, s.where_extra),
        struct_constructor(s.name, s.fields),
        struct_shrink_body(s.fields),
    )
}

/// Writes `, name: ::std::clone::Clone::clone(&self.name)` for each field
/// but the one at `idx`; see [`other_clones`].
fn gen_other_clones(fs: &Vec<FieldInfo>, idx: usize) -> (r: String)
    ensures
        r@ == other_clones(field_views(fs@), idx as int, fs@.len() as int),
{
    let ghost vs = field_views(fs@);
    let mut s = String::new();
    let mut j: usize = 0;
    while j < fs.len()
        invariant
            j <= fs@.len(),
            vs == field_views(fs@),
            s@ == other_clones(vs, idx as int, j as int),
        decreases fs@.len() - j,
    {
        if j != idx {
            string_push_str(&mut s, ", ");
            string_push_str(&mut s, fs[j].name.as_str());
            string_push_str(&mut s, ": ::std::clone::Clone::clone(&self.");
            string_push_str(&mut s, fs[j].name.as_str());
            string_push_str(&mut s, ")");
        }
        assert(vs[j as int] == fs@[j as int]@);
        j = j + 1;
    }
    s
}

/// Writes the arguments of the tuple struct built while the field at `idx`
/// shrinks; see [`tuple_args`].
fn gen_tuple_args(idx: usize, n: usize) -> (r: String)
    ensures
        r@ == tuple_args(idx as int, n as int),
{
    let mut s = String::new();
    let mut j: usize = 0;
    while j < n
        invariant
            j <= n,
            s@ == tuple_args(idx as int, j as int),
        decreases n - j,
    {
        if j > 0 {
            string_push_str(&mut s, ", ");
        }
        if j == idx {
            string_push_str(&mut s, "__s");
        } else {
            string_push_str(&mut s, "::std::clone::Clone::clone(&self.");
            push_decimal(&mut s, j as u64);
            string_push_str(&mut s, ")");
        }
        j = j + 1;
    }
    s
}

/// Writes the parts of a struct's `shrink` for each of its fields; see
/// [`struct_steps`].
fn gen_struct_steps(fields: &Fields) -> (r: String)
    ensures
        r@ == struct_steps(
            fields@,
            match fields@ {
                FieldsView::Named(fs) => fs.len() as int,
                FieldsView::Unnamed(fs) => fs.len() as int,
                FieldsView::Unit => 0,
            },
        ),
{
    let mut s = String::new();
    match fields {
        Fields::Unit => {},
        Fields::Named(fs) => {
            let ghost vs = field_views(fs@);
            let mut idx: usize = 0;
            while idx < fs.len()
                invariant
                    idx <= fs@.len(),
                    vs == field_views(fs@),
                    fields@ == FieldsView::Named(vs),
                    s@ == struct_steps(fields@, idx as int),
                decreases fs@.len() - idx,
            {
                let mut access = String::from_str("self.");
                string_push_str(&mut access, fs[idx].name.as_str());
                let it = gen_field_shrink_iter(&fs[idx].strategy, access.as_str());
                let others = gen_other_clones(fs, idx);
                string_push_str(&mut s, "for __s in ");
                string_push_str(&mut s, it.as_str());
                string_push_str(&mut s, " {\n  __out.push(Self { ");
                string_push_str(&mut s, fs[idx].name.as_str());
                string_push_str(&mut s, ": __s");
                string_push_str(&mut s, others.as_str());
                string_push_str(&mut s, " });\n}\n");
                assert(vs[idx as int] == fs@[idx as int]@);
                idx = idx + 1;
            }
        },
        Fields::Unnamed(fs) => {
            let ghost vs = field_views(fs@);
            let mut idx: usize = 0;
            while idx < fs.len()
                invariant
                    idx <= fs@.len(),
                    vs == field_views(fs@),
                    fields@ == FieldsView::Unnamed(vs),
                    s@ == struct_steps(fields@, idx as int),
                decreases fs@.len() - idx,
            {
                let mut access = String::from_str("self.");
                push_decimal(&mut access, idx as u64);
                let it = gen_field_shrink_iter(&fs[idx].strategy, access.as_str());
                let args = gen_tuple_args(idx, fs.len());
                string_push_str(&mut s, "for __s in ");
                string_push_str(&mut s, it.as_str());
                string_push_str(&mut s, " {\n  __out.push(Self(");
                string_push_str(&mut s, args.as_str());
                string_push_str(&mut s, "));\n}\n");
                assert(vs[idx as int] == fs@[idx as int]@);
                idx = idx + 1;
            }
        },
    }
    s
}

/// Writes the generated value of each field: `name: <value>` for named
/// fields, `<value>` for tuple fields.
fn gen_field_values(fs: &Vec<FieldInfo>, named: bool) -> (r: Vec<String>)
    ensures
        named ==> string_views(r@) == field_views(fs@).map_values(|f: FieldView| named_init(f)),
        !named ==> string_views(r@) == field_views(fs@).map_values(
            |f: FieldView| field_value(f.strategy),
        ),
{
    let ghost vs = field_views(fs@);
    let mut out: Vec<String> = Vec::new();
    let mut i: usize = 0;
    while i < fs.len()
        invariant
            i <= fs@.len(),
            vs == field_views(fs@),
            named ==> string_views(out@) == vs.take(i as int).map_values(|f: FieldView| named_init(f)),
            !named ==> string_views(out@) == vs.take(i as int).map_values(
                |f: FieldView| field_value(f.strategy),
            ),
        decreases fs@.len() - i,
    {
        let v = gen_field_value(&fs[i].strategy);
        let piece = if named {
            let mut p = fs[i].name.clone();
            string_push_str(&mut p, ": ");
            string_push_str(&mut p, v.as_str());
            p
        } else {
            v
        };
        proof {
            assert(vs[i as int] == fs@[i as int]@);
            lemma_string_views_push(out@, piece);
            assert(vs.take(i + 1).map_values(|f: FieldView| named_init(f)) =~= vs.take(
                i as int,
            ).map_values(|f: FieldView| named_init(f)).push(named_init(vs[i as int])));
            assert(vs.take(i + 1).map_values(|f: FieldView| field_value(f.strategy)) =~= vs.take(
                i as int,
            ).map_values(|f: FieldView| field_value(f.strategy)).push(
                field_value(vs[i as int].strategy),
            ));
        }
        out.push(piece);
        i = i + 1;
    }
    assert(vs.take(fs@.len() as int) == vs);
    out
}

/// Writes the `Arbitrary` implementation for a struct; see
/// [`struct_impl_text`].
pub fn generate_arbitrary_impl(s: &ParsedStruct) -> (r: String)
    ensures
        r@ == struct_impl_text(s@),
{
    let where_clause = gen_where(&s.type_params, &s.where_extra);
    let generics_decl = gen_angled(&s.generics_decl);
    let generics_use = gen_angled(&s.generics_use);
    let mut self_ty = s.name.clone();
    string_push_str(&mut self_ty, generics_use.as_str());
    let (constructor, shrink_body) = match &s.fields {
        Fields::Unit => (
            s.name.clone(),
            String::from_str("::std::vec::Vec::new()"),
        ),
        Fields::Named(fs) => {
            let inits = gen_field_values(fs, true);
            let joined_inits = join_strings(&inits, ", ");
            let mut c = s.name.clone();
            string_push_str(&mut c, " {");
            string_push_str(&mut c, joined_inits.as_str());
            string_push_str(&mut c, "}");
            let steps = gen_struct_steps(&s.fields);
            let mut b = String::from_str(
                "let mut __out: ::std::vec::Vec<Self> = ::std::vec::Vec::new();\n",
            );
            string_push_str(&mut b, steps.as_str());
            string_push_str(&mut b, "__out");
            (c, b)
        },
        Fields::Unnamed(fs) => {
            let values = gen_field_values(fs, false);
            let joined_values = join_strings(&values, ", ");
            let mut c = s.name.clone();
            string_push_str(&mut c, "(");
            string_push_str(&mut c, joined_values.as_str());
            string_push_str(&mut c, ")");
            let steps = gen_struct_steps(&s.fields);
            let mut b = String::from_str(
                "let mut __out: ::std::vec::Vec<Self> = ::std::vec::Vec::new();\n",
            );
            string_push_str(&mut b, steps.as_str());
            string_push_str(&mut b, "__out");
            (c, b)
        },
    };
    gen_impl(&generics_decl, &self_ty, &where_clause, &constructor, &shrink_body)
}

/// The expression that builds the variant `v` of the enum `name` with
/// each field generated.
pub open spec fn variant_value(name: Seq<char>, v: VariantView) -> Seq<char> {
    match v.fields {
        FieldsView::Unit => name + "::"@ + v.name,
        FieldsView::Unnamed(fs) => name + "::"@ + v.name + "("@ + joined(
            fs.map_values(|f: FieldView| field_value(f.strategy)),
            ", "@,
        ) + ")"@,
        FieldsView::Named(fs) => name + "::"@ + v.name + " { "@ + joined(
            fs.map_values(|f: FieldView| named_init(f)),
            ", "@,
        ) + " }"@,
    }
}

/// The first `n` arms of the `match` that builds the variant drawn.
pub open spec fn generate_arms(name: Seq<char>, vs: Seq<VariantView>, n: int) -> Seq<char>
    decreases n,
{
    if n <= 0 {
        seq![]
    } else {
        generate_arms(name, vs, n - 1) + "            "@ + decimal((n - 1) as nat) + "u64 => "@
            + variant_value(name, vs[n - 1]) + ",\n"@
    }
}

/// The bindings `__f0, __f1, ...` of the first `n` tuple fields.
pub open spec fn binding_list(n: int) -> Seq<char>
    decreases n,
{
    if n <= 0 {
        seq![]
    } else if n == 1 {
        "__f0"@
    } else {
        binding_list(n - 1) + ", __f"@ + decimal((n - 1) as nat)
    }
}

/// The names of the first `n` named fields, joined with `, `.
pub open spec fn name_list(fs: Seq<FieldView>, n: int) -> Seq<char>
    decreases n,
{
    if n <= 0 {
        seq![]
    } else if n == 1 {
        fs[0].name
    } else {
        name_list(fs, n - 1) + ", "@ + fs[n - 1].name
    }
}

/// The pattern that matches the variant `v` of the enum `name` and binds
/// its fields.
pub open spec fn variant_pattern(name: Seq<char>, v: VariantView) -> Seq<char> {
    match v.fields {
        FieldsView::Unit => name + "::"@ + v.name,
        FieldsView::Unnamed(fs) => name + "::"@ + v.name + "("@ + binding_list(fs.len() as int)
            + ")"@,
        FieldsView::Named(fs) => name + "::"@ + v.name + " { "@ + name_list(fs, fs.len() as int)
            + " }"@,
    }
}

/// The shrink candidates of a field bound (by reference) to `binding` in a
/// `match` arm.
pub open spec fn bound_shrink_iter(strategy: Option<Seq<char>>, binding: Seq<char>) -> Seq<char> {
    match strategy {
        Some(expr) => "{ let __strat = ("@ + expr
            + "); ::propcheck::Strategy::shrink_value(&__strat, "@ + binding + ") }"@,
        None => "::propcheck::Arbitrary::shrink("@ + binding + ")"@,
    }
}

/// The argument at `j` of a tuple variant rebuilt while the field at `si`
/// shrinks.
pub open spec fn bound_tuple_arg(si: int, j: int) -> Seq<char> {
    if j == si {
        "__s"@
    } else {
        "::std::clone::Clone::clone(__f"@ + decimal(j as nat) + ")"@
    }
}

/// The first `n` arguments of a tuple variant rebuilt while the field at
/// `si` shrinks, joined with `, `.
pub open spec fn bound_tuple_args(si: int, n: int) -> Seq<char>
    decreases n,
{
    if n <= 0 {
        seq![]
    } else if n == 1 {
        bound_tuple_arg(si, 0)
    } else {
        bound_tuple_args(si, n - 1) + ", "@ + bound_tuple_arg(si, n - 1)
    }
}

/// The field at `j` of a named variant rebuilt while the field at `si`
/// shrinks.
pub open spec fn bound_named_arg(fs: Seq<FieldView>, si: int, j: int) -> Seq<char> {
    if j == si {
        fs[j].name + ": __s"@
    } else {
        fs[j].name + ": ::std::clone::Clone::clone("@ + fs[j].name + ")"@
    }
}

/// The first `n` fields of a named variant rebuilt while the field at `si`
/// shrinks, joined with `, `.
pub open spec fn bound_named_args(fs: Seq<FieldView>, si: int, n: int) -> Seq<char>
    decreases n,
{
    if n <= 0 {
        seq![]
    } else if n == 1 {
        bound_named_arg(fs, si, 0)
    } else {
        bound_named_args(fs, si, n - 1) + ", "@ + bound_named_arg(fs, si, n - 1)
    }
}

/// The part of a variant's `shrink` arm that shrinks its field at `si`.
pub open spec fn variant_step(name: Seq<char>, v: VariantView, si: int) -> Seq<char> {
    match v.fields {
        FieldsView::Unnamed(fs) => "for __s in "@ + bound_shrink_iter(
            fs[si].strategy,
            "__f"@ + decimal(si as nat),
        ) + " {\n            __out.push("@ + name + "::"@ + v.name + "("@ + bound_tuple_args(
            si,
            fs.len() as int,
        ) + "));\n        }\n"@,
        FieldsView::Named(fs) => "for __s in "@ + bound_shrink_iter(fs[si].strategy, fs[si].name)
            + " {\n            __out.push("@ + name + "::"@ + v.name + " { "@ + bound_named_args(
            fs,
            si,
            fs.len() as int,
        ) + " });\n        }\n"@,
        FieldsView::Unit => seq![],
    }
}

/// The parts of a variant's `shrink` arm for its first `n` fields.
pub open spec fn variant_steps(name: Seq<char>, v: VariantView, n: int) -> Seq<char>
    decreases n,
{
    if n <= 0 {
        seq![]
    } else {
        variant_steps(name, v, n - 1) + variant_step(name, v, n - 1)
    }
}

/// The number of fields.
pub open spec fn field_count(f: FieldsView) -> int {
    match f {
        FieldsView::Named(fs) => fs.len() as int,
        FieldsView::Unnamed(fs) => fs.len() as int,
        FieldsView::Unit => 0,
    }
}

/// The body of a variant's `shrink` arm: each field shrunk in turn; a
/// unit variant has nothing to shrink.
pub open spec fn variant_shrink_body(name: Seq<char>, v: VariantView) -> Seq<char> {
    match v.fields {
        FieldsView::Unit => "/* a unit variant has nothing to shrink */"@,
        _ => variant_steps(name, v, field_count(v.fields)),
    }
}

/// The first `n` arms of the `match` that shrinks within the variant.
pub open spec fn shrink_arms(name: Seq<char>, vs: Seq<VariantView>, n: int) -> Seq<char>
    decreases n,
{
    if n <= 0 {
        seq![]
    } else {
        shrink_arms(name, vs, n - 1) + "        "@ + variant_pattern(name, vs[n - 1])
            + " => {\n            "@ + variant_shrink_body(name, vs[n - 1]) + "        }\n"@
    }
}

/// The first unit variant among the first `n`, if there is one.
pub open spec fn first_unit(vs: Seq<VariantView>, n: int) -> Option<int>
    decreases n,
{
    if n <= 0 {
        None
    } else {
        match first_unit(vs, n - 1) {
            Some(i) => Some(i),
            None => if vs[n - 1].fields is Unit {
                Some(n - 1)
            } else {
                None
            },
        }
    }
}

/// The first unit variant is a unit variant, among the first `n`.
pub proof fn lemma_first_unit(vs: Seq<VariantView>, n: int)
    ensures
        first_unit(vs, n) matches Some(t) ==> 0 <= t < n && vs[t].fields is Unit,
    decreases n,
{
    if n > 0 {
        lemma_first_unit(vs, n - 1);
    }
}

/// The part of `shrink` that first offers the simplest variant: the first
/// unit variant, when there is one, for a value of any other variant.
/// Nothing when the enum has no unit variant.
pub open spec fn collapse_text(name: Seq<char>, vs: Seq<VariantView>) -> Seq<char> {
    match first_unit(vs, vs.len() as int) {
        Some(t) => "match self {\n            "@ + name + "::"@ + vs[t].name
            + " => {}\n            _ => __out.push("@ + name + "::"@ + vs[t].name
            + "),\n        }\n"@,
        None => seq![],
    }
}

/// The `arbitrary` body of an enum: a variant drawn uniformly, its fields
/// generated.
pub open spec fn enum_arbitrary_body(name: Seq<char>, vs: Seq<VariantView>) -> Seq<char> {
    "let __pick = ::propcheck::Rng::gen_range_u64(rng, 0, "@ + decimal(vs.len()) + "u64);\n"@
        + "match __pick {\n"@ + generate_arms(name, vs, vs.len() as int)
        + "_ => unreachable!(),\n}"@
}

/// The `shrink` body of an enum: the collapse to the simplest variant,
/// then each field of the current variant shrunk in turn.
pub open spec fn enum_shrink_body(name: Seq<char>, vs: Seq<VariantView>) -> Seq<char> {
    "let mut __out: ::std::vec::Vec<Self> = ::std::vec::Vec::new();\n"@ + collapse_text(name, vs)
        + "match self {\n"@ + shrink_arms(name, vs, vs.len() as int) + "}\n"@
        + "__out"@
}

/// The `Arbitrary` implementation `#[derive(Arbitrary)]` writes for an
/// enum.
pub open spec fn enum_impl_text(e: EnumView) -> Seq<char> {
    impl_text(
        angled(e.generics_decl),
        e.name + angled(e.generics_use),
        where_text(e.type_params, e.where_extra),
        enum_arbitrary_body(e.name, e.variants),
        enum_shrink_body(e.name, e.variants),
    )
}

/// Writes the expression that builds a variant; see [`variant_value`].
fn gen_variant_value(name: &String, v: &Variant) -> (r: String)
    ensures
        r@ == variant_value(name@, v@),
{
    let mut s = name.clone();
    string_push_str(&mut s, "::");
    string_push_str(&mut s, v.name.as_str());
    match &v.fields {
        Fields::Unit => {},
        Fields::Unnamed(fs) => {
            let values = gen_field_values(fs, false);
            let j = join_strings(&values, ", ");
            string_push_str(&mut s, "(");
            string_push_str(&mut s, j.as_str());
            string_push_str(&mut s, ")");
        },
        Fields::Named(fs) => {
            let inits = gen_field_values(fs, true);
            let j = join_strings(&inits, ", ");
            string_push_str(&mut s, " { ");
            string_push_str(&mut s, j.as_str());
            string_push_str(&mut s, " }");
        },
    }
    s
}

/// Writes the pattern that matches a variant; see [`variant_pattern`].
fn gen_variant_pattern(name: &String, v: &Variant) -> (r: String)
    ensures
        r@ == variant_pattern(name@, v@),
{
    let mut s = name.clone();
    string_push_str(&mut s, "::");
    string_push_str(&mut s, v.name.as_str());
    match &v.fields {
        Fields::Unit => {},
        Fields::Unnamed(fs) => {
            string_push_str(&mut s, "(");
            let mut j: usize = 0;
            let ghost start = s@;
            while j < fs.len()
                invariant
                    j <= fs@.len(),
                    s@ == start + binding_list(j as int),
                decreases fs@.len() - j,
            {
                if j > 0 {
                    string_push_str(&mut s, ", ");
                }
                string_push_str(&mut s, "__f");
                push_decimal(&mut s, j as u64);
                proof {
                    if j == 0 {
                        reveal_strlit("__f0");
                        reveal_strlit("__f");
                        assert(decimal(0) == seq!['0']);
                        assert("__f"@ + decimal(0) == "__f0"@);
                    } else {
                        reveal_strlit(", __f");
                        reveal_strlit(", ");
                        reveal_strlit("__f");
                        assert(", "@ + "__f"@ == ", __f"@);
                    }
                }
                j = j + 1;
            }
            string_push_str(&mut s, ")");
        },
        Fields::Named(fs) => {
            string_push_str(&mut s, " { ");
            let ghost vs = field_views(fs@);
            let ghost start = s@;
            let mut j: usize = 0;
            while j < fs.len()
                invariant
                    j <= fs@.len(),
                    vs == field_views(fs@),
                    s@ == start + name_list(vs, j as int),
                decreases fs@.len() - j,
            {
                if j > 0 {
                    string_push_str(&mut s, ", ");
                }
                string_push_str(&mut s, fs[j].name.as_str());
                assert(vs[j as int] == fs@[j as int]@);
                j = j + 1;
            }
            string_push_str(&mut s, " }");
        },
    }
    s
}

/// Writes the shrink candidates of a bound field; see
/// [`bound_shrink_iter`].
fn gen_bound_shrink_iter(strategy: &Option<String>, binding: &String) -> (r: String)
    ensures
        r@ == bound_shrink_iter(opt_text(*strategy), binding@),
{
    match strategy {
        Some(expr) => {
            let mut s = String::from_str("{ let __strat = (");
            string_push_str(&mut s, expr.as_str());
            string_push_str(&mut s, "); ::propcheck::Strategy::shrink_value(&__strat, ");
            string_push_str(&mut s, binding.as_str());
            string_push_str(&mut s, ") }");
            s
        },
        None => {
            let mut s = String::from_str("::propcheck::Arbitrary::shrink(");
            string_push_str(&mut s, binding.as_str());
            string_push_str(&mut s, ")");
            s
        },
    }
}

/// Writes the body of a variant's `shrink` arm; see
/// [`variant_shrink_body`].
fn gen_variant_shrink_body(name: &String, v: &Variant) -> (r: String)
    ensures
        r@ == variant_shrink_body(name@, v@),
{
    let mut s = String::new();
    match &v.fields {
        Fields::Unit => {
            string_push_str(&mut s, "/* a unit variant has nothing to shrink */");
        },
        Fields::Unnamed(fs) => {
            let mut si: usize = 0;
            while si < fs.len()
                invariant
                    si <= fs@.len(),
                    v@.fields == FieldsView::Unnamed(field_views(fs@)),
                    s@ == variant_steps(name@, v@, si as int),
                decreases fs@.len() - si,
            {
                let mut binding = String::from_str("__f");
                push_decimal(&mut binding, si as u64);
                let it = gen_bound_shrink_iter(&fs[si].strategy, &binding);
                string_push_str(&mut s, "for __s in ");
                string_push_str(&mut s, it.as_str());
                string_push_str(&mut s, " {\n            __out.push(");
                string_push_str(&mut s, name.as_str());
                string_push_str(&mut s, "::");
                string_push_str(&mut s, v.name.as_str());
                string_push_str(&mut s, "(");
                let ghost before_args = s@;
                let mut j: usize = 0;
                while j < fs.len()
                    invariant
                        j <= fs@.len(),
                        s@ == before_args + bound_tuple_args(si as int, j as int),
                    decreases fs@.len() - j,
                {
                    if j > 0 {
                        string_push_str(&mut s, ", ");
                    }
                    if j == si {
                        string_push_str(&mut s, "__s");
                    } else {
                        string_push_str(&mut s, "::std::clone::Clone::clone(__f");
                        push_decimal(&mut s, j as u64);
                        string_push_str(&mut s, ")");
                    }
                    j = j + 1;
                }
                string_push_str(&mut s, "));\n        }\n");
                assert(field_views(fs@)[si as int] == fs@[si as int]@);
                si = si + 1;
            }
        },
        Fields::Named(fs) => {
            let ghost vs = field_views(fs@);
            let mut si: usize = 0;
            while si < fs.len()
                invariant
                    si <= fs@.len(),
                    vs == field_views(fs@),
                    v@.fields == FieldsView::Named(vs),
                    s@ == variant_steps(name@, v@, si as int),
                decreases fs@.len() - si,
            {
                let it = gen_bound_shrink_iter(&fs[si].strategy, &fs[si].name);
                string_push_str(&mut s, "for __s in ");
                string_push_str(&mut s, it.as_str());
                string_push_str(&mut s, " {\n            __out.push(");
                string_push_str(&mut s, name.as_str());
                string_push_str(&mut s, "::");
                string_push_str(&mut s, v.name.as_str());
                string_push_str(&mut s, " { ");
                let ghost before_args = s@;
                let mut j: usize = 0;
                while j < fs.len()
                    invariant
                        j <= fs@.len(),
                        si < fs@.len(),
                        vs == field_views(fs@),
                        s@ == before_args + bound_named_args(vs, si as int, j as int),
                    decreases fs@.len() - j,
                {
                    if j > 0 {
                        string_push_str(&mut s, ", ");
                    }
                    string_push_str(&mut s, fs[j].name.as_str());
                    if j == si {
                        string_push_str(&mut s, ": __s");
                    } else {
                        string_push_str(&mut s, ": ::std::clone::Clone::clone(");
                        string_push_str(&mut s, fs[j].name.as_str());
                        string_push_str(&mut s, ")");
                    }
                    assert(vs[j as int] == fs@[j as int]@);
                    j = j + 1;
                }
                string_push_str(&mut s, " });\n        }\n");
                assert(vs[si as int] == fs@[si as int]@);
                si = si + 1;
            }
        },
    }
    s
}

/// Writes the `Arbitrary` implementation for an enum; see
/// [`enum_impl_text`].
pub fn generate_arbitrary_impl_enum(e: &ParsedEnum) -> (r: String)
    ensures
        r@ == enum_impl_text(e@),
{
    let ghost vs = variant_views(e.variants@);
    let where_clause = gen_where(&e.type_params, &e.where_extra);
    let generics_decl = gen_angled(&e.generics_decl);
    let generics_use = gen_angled(&e.generics_use);
    let mut self_ty = e.name.clone();
    string_push_str(&mut self_ty, generics_use.as_str());
    let n = e.variants.len();
    let mut arms_gen = String::new();
    let mut arms_shrink = String::new();
    let mut unit: Option<usize> = None;
    let mut i: usize = 0;
    while i < n
        invariant
            i <= n == e.variants@.len(),
            vs == variant_views(e.variants@),
            arms_gen@ == generate_arms(e.name@, vs, i as int),
            arms_shrink@ == shrink_arms(e.name@, vs, i as int),
            match unit {
                Some(t) => first_unit(vs, i as int) == Some(t as int),
                None => first_unit(vs, i as int) is None,
            },
        decreases n - i,
    {
        let v = &e.variants[i];
        assert(vs[i as int] == v@);
        let value = gen_variant_value(&e.name, v);
        string_push_str(&mut arms_gen, "            ");
        push_decimal(&mut arms_gen, i as u64);
        string_push_str(&mut arms_gen, "u64 => ");
        string_push_str(&mut arms_gen, value.as_str());
        string_push_str(&mut arms_gen, ",\n");
        let pat = gen_variant_pattern(&e.name, v);
        let body = gen_variant_shrink_body(&e.name, v);
        string_push_str(&mut arms_shrink, "        ");
        string_push_str(&mut arms_shrink, pat.as_str());
        string_push_str(&mut arms_shrink, " => {\n            ");
        string_push_str(&mut arms_shrink, body.as_str());
        string_push_str(&mut arms_shrink, "        }\n");
        if unit.is_none() {
            if let Fields::Unit = &v.fields {
                unit = Some(i);
            }
        }
        i = i + 1;
    }
    let mut collapse = String::new();
    proof {
        lemma_first_unit(vs, n as int);
    }
    if let Some(t) = unit {
        let target = &e.variants[t].name;
        assert(vs[t as int].name == target@);
        string_push_str(&mut collapse, "match self {\n            ");
        string_push_str(&mut collapse, e.name.as_str());
        string_push_str(&mut collapse, "::");
        string_push_str(&mut collapse, target.as_str());
        string_push_str(&mut collapse, " => {}\n            _ => __out.push(");
        string_push_str(&mut collapse, e.name.as_str());
        string_push_str(&mut collapse, "::");
        string_push_str(&mut collapse, target.as_str());
        string_push_str(&mut collapse, "),\n        }\n");
    }
    let mut arbitrary_body = String::from_str("let __pick = ::propcheck::Rng::gen_range_u64(rng, 0, ");
    push_decimal(&mut arbitrary_body, n as u64);
    string_push_str(&mut arbitrary_body, "u64);\n");
    string_push_str(&mut arbitrary_body, "match __pick {\n");
    string_push_str(&mut arbitrary_body, arms_gen.as_str());
    string_push_str(&mut arbitrary_body, "_ => unreachable!(),\n}");
    let mut shrink_body = String::from_str(
        "let mut __out: ::std::vec::Vec<Self> = ::std::vec::Vec::new();\n",
    );
    string_push_str(&mut shrink_body, collapse.as_str());
    string_push_str(&mut shrink_body, "match self {\n");
    string_push_str(&mut shrink_body, arms_shrink.as_str());
    string_push_str(&mut shrink_body, "}\n");
    string_push_str(&mut shrink_body, "__out");
    assert(vs.len() == n);
    gen_impl(&generics_decl, &self_ty, &where_clause, &arbitrary_body, &shrink_body)
}

/// Every type parameter of a derived item is bounded by `Arbitrary` in the
/// implementation's `where` clause, next to the item's own bounds.
pub proof fn law_each_type_parameter_is_bounded(
    type_params: Seq<Seq<char>>,
    where_extra: Seq<char>,
    i: int,
)
    requires
        0 <= i < type_params.len(),
    ensures
        where_pieces(type_params, where_extra).contains(type_params[i] + ": ::propcheck::Arbitrary + ::std::clone::Clone"@),
        where_extra.len() > 0 ==> where_pieces(type_params, where_extra).contains(where_extra),
        where_text(type_params, where_extra) == "where "@ + joined(
            where_pieces(type_params, where_extra),
            ", "@,
        ),
{
    let pieces = where_pieces(type_params, where_extra);
    assert(pieces[i] == type_params[i] + ": ::propcheck::Arbitrary + ::std::clone::Clone"@);
    if where_extra.len() > 0 {
        assert(pieces[type_params.len() as int] == where_extra);
    }
}

} // verus!
