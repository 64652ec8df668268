//! Properties of types stated over the models their functions' contracts
//! use: lowering, alias binding and equivalence.

use vstd::prelude::*;

use crate::core_lang::ast::{SpecType, TypeAliasRef};
use crate::core_lang::types::{fields_equiv, fields_mention, mentions_spec, type_equiv, wf_fields_spec, wf_spec, CoreTypeContext, CoreTypeEnv};
use crate::laws::{alias_free, fields_alias_free};
use crate::fields::{lemma_lookup_first, lookup};
use crate::lower::desugar::lower_type_spec;
use crate::syntax::surface::Type;
use crate::typeck::wf::{bound_aliases_spec, bound_field_aliases_spec};

verus! {

/// `s` is built by the core constructor of the same name as `t`'s.
pub open spec fn same_constructor(t: Type, s: SpecType) -> bool {
    match t {
        Type::Spanned(..) => s is Spanned,
        Type::Int => s is Int,
        Type::Float => s is Float,
        Type::Bool => s is Bool,
        Type::String => s is Str,
        Type::Option(_) => s is Option,
        Type::List(_) => s is List,
        Type::Record(_) => s is Record,
        Type::LiteralUnion(_) => s is LiteralUnion,
        Type::Refinement { .. } => s is Refinement,
        Type::Function(..) => s is Function,
        Type::Alias(n) => s == SpecType::Alias(n@),
    }
}

/// Lowering a surface type builds the core type of the same constructor,
/// and lowers the parts it holds in place.
pub proof fn law_lower_type_keeps_constructor(t: Type)
    ensures
        same_constructor(t, lower_type_spec(t)),
        t matches Type::Spanned(inner, span) ==> lower_type_spec(t) == SpecType::Spanned(Box::new(lower_type_spec(*inner)), span),
        t matches Type::Option(inner) ==> lower_type_spec(t) == SpecType::Option(Box::new(lower_type_spec(*inner))),
        t matches Type::List(inner) ==> lower_type_spec(t) == SpecType::List(Box::new(lower_type_spec(*inner))),
        t matches Type::Function(i, o) ==> lower_type_spec(t)
            == SpecType::Function(Box::new(lower_type_spec(*i)), Box::new(lower_type_spec(*o))),
{
}

/// The type writes an alias by reference somewhere.
pub open spec fn writes_ref(t: SpecType) -> bool
    decreases t, 0nat,
{
    match t {
        SpecType::Spanned(inner, _) => writes_ref(*inner),
        SpecType::ResolvedAlias(_) => true,
        SpecType::Option(inner) => writes_ref(*inner),
        SpecType::List(inner) => writes_ref(*inner),
        SpecType::Record(fields) => fields_write_ref(fields),
        SpecType::Refinement { base, .. } => writes_ref(*base),
        SpecType::Function(i, o) => writes_ref(*i) || writes_ref(*o),
        _ => false,
    }
}

pub open spec fn fields_write_ref(fields: Seq<(Seq<char>, SpecType)>) -> bool
    decreases fields, 0nat,
{
    if fields.len() == 0 {
        false
    } else {
        writes_ref(fields[0].1) || fields_write_ref(fields.drop_first())
    }
}

/// Every alias name the type writes is bound in `env`.
pub open spec fn names_bound(env: CoreTypeEnv, t: SpecType) -> bool {
    forall|n: Seq<char>| #[trigger] mentions_spec(t, n, None) ==> env.named(n) is Some
}

pub open spec fn field_names_bound(env: CoreTypeEnv, fields: Seq<(Seq<char>, SpecType)>) -> bool {
    forall|n: Seq<char>| #[trigger] fields_mention(fields, n, None) ==> env.named(n) is Some
}

/// A type passes the declaration check (`well_formed_type`) exactly when
/// every alias name it writes, through options, lists, record fields,
/// refinement bases and function types, is bound, and it writes no alias
/// by reference; predicates are not looked into and aliases are not
/// expanded.
pub proof fn law_well_formed_type_iff(env: CoreTypeEnv, t: SpecType)
    ensures
        bound_aliases_spec(env, t) is None <==> (names_bound(env, t) && !writes_ref(t)),
    decreases t, 1nat,
{
    match t {
        SpecType::Spanned(inner, _) => {
            law_well_formed_type_iff(env, *inner);
            assert(forall|n: Seq<char>| mentions_spec(t, n, None) == mentions_spec(*inner, n, None));
        },
        SpecType::Alias(name) => {
            if env.named(name) is None {
                assert(mentions_spec(t, name, None));
            }
        },
        SpecType::Option(inner) => {
            law_well_formed_type_iff(env, *inner);
            assert(forall|n: Seq<char>| mentions_spec(t, n, None) == mentions_spec(*inner, n, None));
        },
        SpecType::List(inner) => {
            law_well_formed_type_iff(env, *inner);
            assert(forall|n: Seq<char>| mentions_spec(t, n, None) == mentions_spec(*inner, n, None));
        },
        SpecType::Record(fields) => {
            lemma_fields_bound_iff(env, fields);
            assert(forall|n: Seq<char>| mentions_spec(t, n, None) == fields_mention(fields, n, None));
        },
        SpecType::Refinement { base, .. } => {
            law_well_formed_type_iff(env, *base);
            assert(forall|n: Seq<char>| mentions_spec(t, n, None) == mentions_spec(*base, n, None));
        },
        SpecType::Function(i, o) => {
            law_well_formed_type_iff(env, *i);
            law_well_formed_type_iff(env, *o);
            assert(forall|n: Seq<char>| mentions_spec(t, n, None) == (mentions_spec(*i, n, None) || mentions_spec(*o, n, None)));
            if names_bound(env, *i) && names_bound(env, *o) {
                assert(names_bound(env, t));
            }
            if names_bound(env, t) {
                assert(names_bound(env, *i));
                assert(names_bound(env, *o));
            }
        },
        _ => {},
    }
}

proof fn lemma_fields_bound_iff(env: CoreTypeEnv, fields: Seq<(Seq<char>, SpecType)>)
    ensures
        bound_field_aliases_spec(env, fields) is None <==> (field_names_bound(env, fields) && !fields_write_ref(fields)),
    decreases fields, 0nat,
{
    if fields.len() > 0 {
        law_well_formed_type_iff(env, fields[0].1);
        lemma_fields_bound_iff(env, fields.drop_first());
        assert(forall|n: Seq<char>| fields_mention(fields, n, None)
            == (mentions_spec(fields[0].1, n, None) || fields_mention(fields.drop_first(), n, None)));
        if names_bound(env, fields[0].1) && field_names_bound(env, fields.drop_first()) {
            assert(field_names_bound(env, fields));
        }
        if field_names_bound(env, fields) {
            assert forall|n: Seq<char>| #[trigger] mentions_spec(fields[0].1, n, None) implies env.named(n) is Some by {
                assert(fields_mention(fields, n, None));
            }
            assert forall|n: Seq<char>| #[trigger] fields_mention(fields.drop_first(), n, None) implies env.named(n) is Some by {
                assert(fields_mention(fields, n, None));
            }
        }
    }
}

/// No record in the type, at any depth, names a field twice.
pub open spec fn distinct_fields(t: SpecType) -> bool
    decreases t, 0nat,
{
    match t {
        SpecType::Spanned(inner, _) => distinct_fields(*inner),
        SpecType::Option(inner) => distinct_fields(*inner),
        SpecType::List(inner) => distinct_fields(*inner),
        SpecType::Record(fields) => distinct_field_names(fields) && fields_distinct(fields),
        SpecType::Refinement { base, .. } => distinct_fields(*base),
        SpecType::Function(i, o) => distinct_fields(*i) && distinct_fields(*o),
        _ => true,
    }
}

pub open spec fn distinct_field_names(fields: Seq<(Seq<char>, SpecType)>) -> bool {
    forall|i: int, j: int| 0 <= i < j < fields.len() ==> #[trigger] fields[i].0 != #[trigger] fields[j].0
}

pub open spec fn fields_distinct(fields: Seq<(Seq<char>, SpecType)>) -> bool
    decreases fields, 0nat,
{
    if fields.len() == 0 {
        true
    } else {
        distinct_fields(fields[0].1) && fields_distinct(fields.drop_first())
    }
}

/// A span annotation on the right is looked through.
pub proof fn law_equiv_ignores_right_span(a: SpecType, b: SpecType, span: crate::error::ByteRange)
    ensures
        type_equiv(a, SpecType::Spanned(Box::new(b), span)) == type_equiv(a, b),
    decreases a,
{
    if let SpecType::Spanned(inner, _) = a {
        law_equiv_ignores_right_span(*inner, b, span);
    }
}

/// Type equivalence looks through span annotations on either side, and
/// every type whose records name each field once is equivalent to itself.
pub proof fn law_equiv_spans_and_reflexive(a: SpecType, b: SpecType, span: crate::error::ByteRange)
    ensures
        type_equiv(SpecType::Spanned(Box::new(a), span), b) == type_equiv(a, b),
        type_equiv(b, SpecType::Spanned(Box::new(a), span)) == type_equiv(b, a),
        distinct_fields(a) ==> type_equiv(a, a),
{
    law_equiv_ignores_right_span(b, a, span);
    if distinct_fields(a) {
        lemma_equiv_reflexive(a);
    }
}

proof fn lemma_equiv_reflexive(a: SpecType)
    requires
        distinct_fields(a),
    ensures
        type_equiv(a, a),
    decreases a, 1nat,
{
    match a {
        SpecType::Spanned(inner, span) => {
            lemma_equiv_reflexive(*inner);
            law_equiv_ignores_right_span(*inner, *inner, span);
        },
        SpecType::Option(inner) => lemma_equiv_reflexive(*inner),
        SpecType::List(inner) => lemma_equiv_reflexive(*inner),
        SpecType::Refinement { base, .. } => lemma_equiv_reflexive(*base),
        SpecType::Function(i, o) => {
            lemma_equiv_reflexive(*i);
            lemma_equiv_reflexive(*o);
        },
        SpecType::Record(fields) => {
            lemma_fields_reflexive(fields, fields);
        },
        _ => {},
    }
}

/// Each field of the suffix `l` of the distinct fields `r` is found in `r`
/// at an equivalent type.
proof fn lemma_fields_reflexive(l: Seq<(Seq<char>, SpecType)>, r: Seq<(Seq<char>, SpecType)>)
    requires
        distinct_field_names(r),
        fields_distinct(l),
        l.len() <= r.len(),
        l =~= r.skip(r.len() - l.len()),
    ensures
        fields_equiv(l, r),
    decreases l, 0nat,
{
    if l.len() > 0 {
        let i = r.len() - l.len();
        assert(l[0] == r[i]);
        assert forall|j: int| 0 <= j < i implies r[j].0 != r[i].0 by {}
        lemma_lookup_first(r, r[i].0, i);
        lemma_equiv_reflexive(l[0].1);
        assert(l.drop_first() =~= r.skip(r.len() - l.drop_first().len()));
        lemma_fields_reflexive(l.drop_first(), r);
    }
}

/// Type equivalence is symmetric on types whose records name each field
/// once.
pub proof fn law_equiv_symmetric(a: SpecType, b: SpecType)
    requires
        distinct_fields(a),
        distinct_fields(b),
        type_equiv(a, b),
    ensures
        type_equiv(b, a),
    decreases a, b,
{
    match a {
        SpecType::Spanned(inner, span) => {
            law_equiv_symmetric(*inner, b);
            law_equiv_ignores_right_span(b, *inner, span);
        },
        _ => match b {
            SpecType::Spanned(inner, _) => {
                law_equiv_symmetric(a, *inner);
            },
            _ => match (a, b) {
                (SpecType::Option(l), SpecType::Option(r)) => law_equiv_symmetric(*l, *r),
                (SpecType::List(l), SpecType::List(r)) => law_equiv_symmetric(*l, *r),
                (SpecType::Refinement { base: lb, .. }, SpecType::Refinement { base: rb, .. }) => law_equiv_symmetric(*lb, *rb),
                (SpecType::Function(li, lo), SpecType::Function(ri, ro)) => {
                    law_equiv_symmetric(*li, *ri);
                    law_equiv_symmetric(*lo, *ro);
                },
                (SpecType::Record(l), SpecType::Record(r)) => {
                    assert(l.len() == r.len() && fields_equiv(l, r));
                    lemma_fields_cover(l, r);
                    assert(r =~= r.skip(r.len() - r.len()));
                    lemma_fields_symmetric(l, r, r);
                },
                _ => {},
            },
        },
    }
}

/// Each field type of distinct fields has distinct fields itself.
proof fn lemma_fields_distinct_at(fs: Seq<(Seq<char>, SpecType)>, i: int)
    requires
        fields_distinct(fs),
        0 <= i < fs.len(),
    ensures
        distinct_fields(fs[i].1),
    decreases i,
{
    if i > 0 {
        lemma_fields_distinct_at(fs.drop_first(), i - 1);
        assert(fs.drop_first()[i - 1] == fs[i]);
    }
}

/// Every field of `l` is found in `r` at an equivalent type.
proof fn lemma_fields_equiv_at(l: Seq<(Seq<char>, SpecType)>, r: Seq<(Seq<char>, SpecType)>, i: int)
    requires
        fields_equiv(l, r),
        0 <= i < l.len(),
    ensures
        lookup(r, l[i].0) matches Some(t) && type_equiv(l[i].1, t),
    decreases i,
{
    if i > 0 {
        lemma_fields_equiv_at(l.drop_first(), r, i - 1);
        assert(l.drop_first()[i - 1] == l[i]);
    }
}

/// The names of a sequence of fields.
spec fn names_of(fs: Seq<(Seq<char>, SpecType)>) -> Seq<Seq<char>> {
    fs.map_values(|p: (Seq<char>, SpecType)| p.0)
}

/// Two records of the same size whose names are distinct, the first's all
/// found in the second, have the same names.
proof fn lemma_fields_cover(l: Seq<(Seq<char>, SpecType)>, r: Seq<(Seq<char>, SpecType)>)
    requires
        distinct_field_names(l),
        distinct_field_names(r),
        l.len() == r.len(),
        fields_equiv(l, r),
    ensures
        forall|j: int| 0 <= j < r.len() ==> exists|i: int| 0 <= i < l.len() && #[trigger] l[i].0 == #[trigger] r[j].0,
{
    let nl = names_of(l);
    let nr = names_of(r);
    assert(nl.no_duplicates()) by {
        assert forall|i: int, j: int| 0 <= i < nl.len() && 0 <= j < nl.len() && i != j implies nl[i] != nl[j] by {
            if i < j {
                assert(l[i].0 != l[j].0);
            } else {
                assert(l[j].0 != l[i].0);
            }
        }
    }
    assert(nr.no_duplicates()) by {
        assert forall|i: int, j: int| 0 <= i < nr.len() && 0 <= j < nr.len() && i != j implies nr[i] != nr[j] by {
            if i < j {
                assert(r[i].0 != r[j].0);
            } else {
                assert(r[j].0 != r[i].0);
            }
        }
    }
    nl.unique_seq_to_set();
    nr.unique_seq_to_set();
    vstd::seq_lib::seq_to_set_is_finite(nl);
    vstd::seq_lib::seq_to_set_is_finite(nr);
    assert forall|k: Seq<char>| nl.to_set().contains(k) implies nr.to_set().contains(k) by {
        let i = choose|i: int| 0 <= i < nl.len() && nl[i] == k;
        lemma_fields_equiv_at(l, r, i);
        crate::fields::lemma_lookup_some_index(r, l[i].0);
        let j = choose|j: int| 0 <= j < r.len() && r[j].0 == l[i].0 && lookup(r, l[i].0) == Some(r[j].1);
        assert(nr[j] == k);
    }
    vstd::set_lib::lemma_subset_equality(nl.to_set(), nr.to_set());
    assert forall|j: int| 0 <= j < r.len() implies exists|i: int| 0 <= i < l.len() && #[trigger] l[i].0 == #[trigger] r[j].0 by {
        assert(nr[j] == r[j].0);
        assert(nr.to_set().contains(r[j].0));
        assert(nl.to_set().contains(r[j].0));
        let i = choose|i: int| 0 <= i < nl.len() && nl[i] == r[j].0;
        assert(l[i].0 == nl[i]);
    }
}

/// Each field of the suffix `rs` of `r` is found in `l` at an equivalent
/// type, when `l`'s fields are all found in `r` and every name of `r` is one
/// of `l`'s.
proof fn lemma_fields_symmetric(l: Seq<(Seq<char>, SpecType)>, rs: Seq<(Seq<char>, SpecType)>, r: Seq<(Seq<char>, SpecType)>)
    requires
        distinct_field_names(l),
        distinct_field_names(r),
        fields_distinct(l),
        fields_distinct(r),
        fields_equiv(l, r),
        rs.len() <= r.len(),
        rs =~= r.skip(r.len() - rs.len()),
        forall|j: int| 0 <= j < r.len() ==> exists|i: int| 0 <= i < l.len() && #[trigger] l[i].0 == #[trigger] r[j].0,
    ensures
        fields_equiv(rs, l),
    decreases l, rs,
{
    if rs.len() > 0 {
        let j = r.len() - rs.len();
        assert(rs[0] == r[j]);
        let i = choose|i: int| 0 <= i < l.len() && #[trigger] l[i].0 == #[trigger] r[j].0;
        lemma_fields_equiv_at(l, r, i);
        assert forall|k: int| 0 <= k < j implies r[k].0 != r[j].0 by {}
        lemma_lookup_first(r, r[j].0, j);
        assert forall|k: int| 0 <= k < i implies l[k].0 != l[i].0 by {}
        lemma_lookup_first(l, l[i].0, i);
        lemma_fields_distinct_at(l, i);
        lemma_fields_distinct_at(r, j);
        law_equiv_symmetric(l[i].1, rs[0].1);
        assert(rs.drop_first() =~= r.skip(r.len() - rs.drop_first().len()));
        lemma_fields_symmetric(l, rs.drop_first(), r);
    }
}

/// Type equivalence is transitive.
pub proof fn law_equiv_transitive(a: SpecType, b: SpecType, c: SpecType)
    requires
        type_equiv(a, b),
        type_equiv(b, c),
    ensures
        type_equiv(a, c),
    decreases a, b, c,
{
    match a {
        SpecType::Spanned(inner, _) => law_equiv_transitive(*inner, b, c),
        _ => match b {
            SpecType::Spanned(inner, _) => law_equiv_transitive(a, *inner, c),
            _ => match c {
                SpecType::Spanned(inner, _) => law_equiv_transitive(a, b, *inner),
                _ => match (a, b, c) {
                    (SpecType::Option(x), SpecType::Option(y), SpecType::Option(z)) => law_equiv_transitive(*x, *y, *z),
                    (SpecType::List(x), SpecType::List(y), SpecType::List(z)) => law_equiv_transitive(*x, *y, *z),
                    (
                        SpecType::Refinement { base: x, .. },
                        SpecType::Refinement { base: y, .. },
                        SpecType::Refinement { base: z, .. },
                    ) => law_equiv_transitive(*x, *y, *z),
                    (SpecType::Function(xi, xo), SpecType::Function(yi, yo), SpecType::Function(zi, zo)) => {
                        law_equiv_transitive(*xi, *yi, *zi);
                        law_equiv_transitive(*xo, *yo, *zo);
                    },
                    (SpecType::Record(x), SpecType::Record(y), SpecType::Record(z)) => {
                        lemma_fields_transitive(x, y, z);
                    },
                    _ => {},
                },
            },
        },
    }
}

/// Fields found in `m` at equivalent types, whose own fields are found in
/// `r` at equivalent types, are found in `r` at equivalent types.
proof fn lemma_fields_transitive(l: Seq<(Seq<char>, SpecType)>, m: Seq<(Seq<char>, SpecType)>, r: Seq<(Seq<char>, SpecType)>)
    requires
        fields_equiv(l, m),
        fields_equiv(m, r),
    ensures
        fields_equiv(l, r),
    decreases l, m, r,
{
    if l.len() > 0 {
        lemma_fields_equiv_at(l, m, 0);
        crate::fields::lemma_lookup_some_index(m, l[0].0);
        let j = choose|j: int| 0 <= j < m.len() && m[j].0 == l[0].0 && lookup(m, l[0].0) == Some(m[j].1);
        lemma_fields_equiv_at(m, r, j);
        let tr = lookup(r, m[j].0)->Some_0;
        law_equiv_transitive(l[0].1, m[j].1, tr);
        lemma_fields_transitive(l.drop_first(), m, r);
    }
}

/// The validator refuses a type that writes the alias `n` by name when
/// the context does not define `n`, or when `n` is already being expanded:
/// so an unknown alias, and an alias whose definition writes it again, are
/// refused. A type that writes no alias and no span is accepted.
pub proof fn law_well_formed_refuses_and_accepts<C: CoreTypeContext>(
    ctx: C,
    t: SpecType,
    n: Seq<char>,
    stack: Seq<Seq<char>>,
    seen: Seq<TypeAliasRef>,
)
    ensures
        mentions_spec(t, n, None) && (ctx.alias_spec(n) is None || stack.contains(n)) ==> wf_spec(ctx, t, stack, seen) is Some,
        ctx.alias_spec(n) matches Some(body) && mentions_spec(body, n, None) && !stack.contains(n)
            ==> wf_spec(ctx, SpecType::Alias(n), stack, seen) is Some,
        alias_free(t) ==> wf_spec(ctx, t, stack, seen) is None,
{
    if mentions_spec(t, n, None) && (ctx.alias_spec(n) is None || stack.contains(n)) {
        lemma_wf_refuses(ctx, t, n, stack, seen);
    }
    if let Some(body) = ctx.alias_spec(n) {
        if mentions_spec(body, n, None) && !stack.contains(n) {
            ctx.lemma_alias_names(n);
            crate::core_lang::types::lemma_budget_shrinks(ctx.alias_names(), stack, n);
            assert(stack.push(n).contains(n)) by {
                assert(stack.push(n)[stack.len() as int] == n);
            }
            lemma_wf_refuses(ctx, body, n, stack.push(n), Seq::empty());
        }
    }
    if alias_free(t) {
        lemma_wf_accepts(ctx, t, stack, seen);
    }
}

proof fn lemma_wf_refuses<C: CoreTypeContext>(ctx: C, t: SpecType, n: Seq<char>, stack: Seq<Seq<char>>, seen: Seq<TypeAliasRef>)
    requires
        mentions_spec(t, n, None),
        ctx.alias_spec(n) is None || stack.contains(n),
    ensures
        wf_spec(ctx, t, stack, seen) is Some,
    decreases t, 1nat,
{
    match t {
        SpecType::Spanned(inner, _) => lemma_wf_refuses(ctx, *inner, n, stack, seen),
        SpecType::Option(inner) => lemma_wf_refuses(ctx, *inner, n, stack, seen),
        SpecType::List(inner) => lemma_wf_refuses(ctx, *inner, n, stack, seen),
        SpecType::Refinement { base, .. } => lemma_wf_refuses(ctx, *base, n, stack, seen),
        SpecType::Function(i, o) => {
            if mentions_spec(*i, n, None) {
                lemma_wf_refuses(ctx, *i, n, stack, seen);
            } else {
                lemma_wf_refuses(ctx, *o, n, stack, seen);
            }
        },
        SpecType::Record(fields) => lemma_wf_fields_refuse(ctx, fields, n, stack, seen),
        _ => {},
    }
}

proof fn lemma_wf_fields_refuse<C: CoreTypeContext>(ctx: C, fields: Seq<(Seq<char>, SpecType)>, n: Seq<char>, stack: Seq<Seq<char>>, seen: Seq<TypeAliasRef>)
    requires
        fields_mention(fields, n, None),
        ctx.alias_spec(n) is None || stack.contains(n),
    ensures
        wf_fields_spec(ctx, fields, stack, seen) is Some,
    decreases fields, 0nat,
{
    if mentions_spec(fields[0].1, n, None) {
        lemma_wf_refuses(ctx, fields[0].1, n, stack, seen);
    } else {
        lemma_wf_fields_refuse(ctx, fields.drop_first(), n, stack, seen);
    }
}

proof fn lemma_wf_accepts<C: CoreTypeContext>(ctx: C, t: SpecType, stack: Seq<Seq<char>>, seen: Seq<TypeAliasRef>)
    requires
        alias_free(t),
    ensures
        wf_spec(ctx, t, stack, seen) is None,
    decreases t, 1nat,
{
    match t {
        SpecType::Option(inner) => lemma_wf_accepts(ctx, *inner, stack, seen),
        SpecType::List(inner) => lemma_wf_accepts(ctx, *inner, stack, seen),
        SpecType::Refinement { base, .. } => lemma_wf_accepts(ctx, *base, stack, seen),
        SpecType::Function(i, o) => {
            lemma_wf_accepts(ctx, *i, stack, seen);
            lemma_wf_accepts(ctx, *o, stack, seen);
        },
        SpecType::Record(fields) => lemma_wf_fields_accept(ctx, fields, stack, seen),
        _ => {},
    }
}

proof fn lemma_wf_fields_accept<C: CoreTypeContext>(ctx: C, fields: Seq<(Seq<char>, SpecType)>, stack: Seq<Seq<char>>, seen: Seq<TypeAliasRef>)
    requires
        fields_alias_free(fields),
    ensures
        wf_fields_spec(ctx, fields, stack, seen) is None,
    decreases fields, 0nat,
{
    if fields.len() > 0 {
        lemma_wf_accepts(ctx, fields[0].1, stack, seen);
        lemma_wf_fields_accept(ctx, fields.drop_first(), stack, seen);
    }
}

} // verus!
