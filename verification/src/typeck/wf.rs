//! Well-formedness of declared types for the evaluator: every alias named
//! in a type must be bound when the type is declared, and when an
//! expression that writes the type is evaluated.

use vstd::prelude::*;

use crate::core_lang::ast::{
    expr_fields_view, expr_list_view, lemma_expr_fields_view, lemma_expr_list_view, lemma_type_fields_view,
    type_fields_view, CoreExpr, CoreType, SpecExpr, SpecType,
};
use crate::core_lang::types::{label_type_error, CoreTypeContext, CoreTypeEnv};
use crate::error::{ByteRange, Error, ErrorCode, Result};
use crate::text::concat3;

verus! {

/// The first problem with a type, in order: an alias name that is not bound,
/// or an alias given by reference, which is not looked up here.
pub open spec fn bound_aliases_spec(env: CoreTypeEnv, t: SpecType) -> Option<ErrorCode>
    decreases t, 0nat,
{
    match t {
        SpecType::Spanned(inner, _) => bound_aliases_spec(env, *inner),
        SpecType::Alias(name) => if env.named(name) is None {
            Some(ErrorCode::TypeUnknown)
        } else {
            None
        },
        SpecType::ResolvedAlias(_) => Some(ErrorCode::TypeUnknown),
        SpecType::Option(inner) => bound_aliases_spec(env, *inner),
        SpecType::List(inner) => bound_aliases_spec(env, *inner),
        SpecType::Record(fields) => bound_field_aliases_spec(env, fields),
        SpecType::Refinement { base, .. } => bound_aliases_spec(env, *base),
        SpecType::Function(i, o) => match bound_aliases_spec(env, *i) {
            Some(c) => Some(c),
            None => bound_aliases_spec(env, *o),
        },
        _ => None,
    }
}

/// The first problem among the field types, in order.
pub open spec fn bound_field_aliases_spec(env: CoreTypeEnv, fields: Seq<(Seq<char>, SpecType)>) -> Option<ErrorCode>
    decreases fields, 0nat,
{
    if fields.len() == 0 {
        None
    } else {
        match bound_aliases_spec(env, fields[0].1) {
            Some(c) => Some(c),
            None => bound_field_aliases_spec(env, fields.drop_first()),
        }
    }
}

/// The message of the first problem with a type (meaningful when there is
/// one): the unbound alias name, or an alias given by reference.
pub open spec fn unbound_message(env: CoreTypeEnv, t: SpecType) -> Seq<char>
    decreases t, 0nat,
{
    match t {
        SpecType::Spanned(inner, _) => unbound_message(env, *inner),
        SpecType::Alias(name) => "unknown type `"@ + name + "`"@,
        SpecType::ResolvedAlias(_) => "unknown type alias"@,
        SpecType::Option(inner) => unbound_message(env, *inner),
        SpecType::List(inner) => unbound_message(env, *inner),
        SpecType::Record(fields) => field_unbound_message(env, fields),
        SpecType::Refinement { base, .. } => unbound_message(env, *base),
        SpecType::Function(i, o) => if bound_aliases_spec(env, *i) is Some {
            unbound_message(env, *i)
        } else {
            unbound_message(env, *o)
        },
        _ => Seq::empty(),
    }
}

/// The message of the first problem among the field types.
pub open spec fn field_unbound_message(env: CoreTypeEnv, fields: Seq<(Seq<char>, SpecType)>) -> Seq<char>
    decreases fields, 0nat,
{
    if fields.len() == 0 {
        Seq::empty()
    } else if bound_aliases_spec(env, fields[0].1) is Some {
        unbound_message(env, fields[0].1)
    } else {
        field_unbound_message(env, fields.drop_first())
    }
}

/// Where the first problem with a type is labelled: the innermost written
/// span (start not past end) around it, if any.
pub open spec fn unbound_span(env: CoreTypeEnv, t: SpecType) -> Option<ByteRange>
    decreases t, 0nat,
{
    match t {
        SpecType::Spanned(inner, span) => match unbound_span(env, *inner) {
            Some(s) => Some(s),
            None => if span.start <= span.end { Some(span) } else { None },
        },
        SpecType::Option(inner) => unbound_span(env, *inner),
        SpecType::List(inner) => unbound_span(env, *inner),
        SpecType::Record(fields) => field_unbound_span(env, fields),
        SpecType::Refinement { base, .. } => unbound_span(env, *base),
        SpecType::Function(i, o) => if bound_aliases_spec(env, *i) is Some {
            unbound_span(env, *i)
        } else {
            unbound_span(env, *o)
        },
        _ => None,
    }
}

/// Where the first problem among the field types is labelled.
pub open spec fn field_unbound_span(env: CoreTypeEnv, fields: Seq<(Seq<char>, SpecType)>) -> Option<ByteRange>
    decreases fields, 0nat,
{
    if fields.len() == 0 {
        None
    } else if bound_aliases_spec(env, fields[0].1) is Some {
        unbound_span(env, fields[0].1)
    } else {
        field_unbound_span(env, fields.drop_first())
    }
}

/// The error for the first problem of a type: its message, and one label
/// with that message where `unbound_span` places it.
pub open spec fn unbound_error(env: CoreTypeEnv, t: SpecType, e: Error) -> bool {
    &&& e.message_spec() == unbound_message(env, t)
    &&& match unbound_span(env, t) {
        Some(sp) => e.labels_spec().len() == 1 && e.labels_spec()[0].span == sp && e.labels_spec()[0].message@ == e.message_spec(),
        None => e.labels_spec().len() == 0,
    }
}

/// Every problem with a type is an unknown type.
proof fn lemma_unbound_is_unknown(env: CoreTypeEnv, t: SpecType)
    ensures
        bound_aliases_spec(env, t) is Some ==> bound_aliases_spec(env, t) == Some(ErrorCode::TypeUnknown),
    decreases t, 1nat,
{
    match t {
        SpecType::Spanned(inner, _) => lemma_unbound_is_unknown(env, *inner),
        SpecType::Option(inner) => lemma_unbound_is_unknown(env, *inner),
        SpecType::List(inner) => lemma_unbound_is_unknown(env, *inner),
        SpecType::Record(fields) => lemma_field_unbound_is_unknown(env, fields),
        SpecType::Refinement { base, .. } => lemma_unbound_is_unknown(env, *base),
        SpecType::Function(i, o) => {
            lemma_unbound_is_unknown(env, *i);
            lemma_unbound_is_unknown(env, *o);
        },
        _ => {},
    }
}

proof fn lemma_field_unbound_is_unknown(env: CoreTypeEnv, fields: Seq<(Seq<char>, SpecType)>)
    ensures
        bound_field_aliases_spec(env, fields) is Some ==> bound_field_aliases_spec(env, fields) == Some(ErrorCode::TypeUnknown),
    decreases fields, 1nat,
{
    if fields.len() > 0 {
        lemma_unbound_is_unknown(env, fields[0].1);
        lemma_field_unbound_is_unknown(env, fields.drop_first());
    }
}

/// Checks that every alias `ty` names is bound in `aliases`.
#[verifier::loop_isolation(false)]
pub fn well_formed_type(ty: &CoreType, aliases: &CoreTypeEnv) -> (r: Result<()>)
    ensures
        match r {
            Ok(()) => bound_aliases_spec(*aliases, ty@) is None,
            Err(e) => bound_aliases_spec(*aliases, ty@) == Some(e.code_spec()) && unbound_error(*aliases, ty@, e),
        },
    decreases ty,
{
    match ty {
        CoreType::Spanned(inner, span) => match well_formed_type(inner, aliases) {
            Ok(()) => Ok(()),
            Err(e) => {
                proof {
                    lemma_unbound_is_unknown(*aliases, inner@);
                }
                Err(label_type_error(e, *span))
            },
        },
        CoreType::Alias(name) => match aliases.alias(name.as_str()) {
            Some(_) => Ok(()),
            None => Err(Error::with_code(
                ErrorCode::TypeUnknown,
                concat3("unknown type `", name.as_str(), "`").as_str(),
            )),
        },
        CoreType::ResolvedAlias(_) => Err(Error::with_code(ErrorCode::TypeUnknown, "unknown type alias")),
        CoreType::Option(inner) => well_formed_type(inner, aliases),
        CoreType::List(inner) => well_formed_type(inner, aliases),
        CoreType::Record(fields) => {
            let ghost fv = type_fields_view(fields.entries@);
            proof {
                lemma_type_fields_view(fields.entries@);
                assert(fv.skip(0) =~= fv);
            }
            let mut i: usize = 0;
            while i < fields.entries.len()
                invariant
                    i <= fields.entries@.len(),
                    fv.len() == fields.entries@.len(),
                    bound_field_aliases_spec(*aliases, fv) == bound_field_aliases_spec(*aliases, fv.skip(i as int)),
                    bound_field_aliases_spec(*aliases, fv.skip(i as int)) is Some ==> field_unbound_message(*aliases, fv)
                        == field_unbound_message(*aliases, fv.skip(i as int))
                        && field_unbound_span(*aliases, fv) == field_unbound_span(*aliases, fv.skip(i as int)),
                decreases fields.entries.len() - i,
            {
                proof {
                    assert(decreases_to!(fields.entries => fields.entries@[i as int]));
                    assert(fv.skip(i as int).drop_first() =~= fv.skip(i + 1));
                    assert(fv.skip(i as int)[0] == fv[i as int]);
                }
                well_formed_type(&fields.entries[i].1, aliases)?;
                i = i + 1;
            }
            proof {
                assert(fv.skip(i as int) =~= Seq::<(Seq<char>, SpecType)>::empty());
            }
            Ok(())
        },
        CoreType::Refinement { base, .. } => well_formed_type(base, aliases),
        CoreType::Function(input, output) => {
            well_formed_type(input, aliases)?;
            well_formed_type(output, aliases)
        },
        CoreType::Int | CoreType::Float | CoreType::Bool | CoreType::String | CoreType::LiteralUnion(_) => Ok(()),
    }
}

/// The first of two problems.
pub open spec fn first_problem(a: Option<ErrorCode>, b: Option<ErrorCode>) -> Option<ErrorCode> {
    match a {
        Some(c) => Some(c),
        None => b,
    }
}

/// The first unbound alias among the types an expression writes (in its
/// ascriptions, `let` annotations and parameter types), in source order.
pub open spec fn expr_aliases_spec(env: CoreTypeEnv, e: SpecExpr) -> Option<ErrorCode>
    decreases e, 0nat,
{
    match e {
        SpecExpr::Spanned(inner, _) => expr_aliases_spec(env, *inner),
        SpecExpr::OptSome(inner) => expr_aliases_spec(env, *inner),
        SpecExpr::List(items) => list_aliases_spec(env, items),
        SpecExpr::Record(fs) => field_exprs_aliases_spec(env, fs),
        SpecExpr::Field(inner, _) => expr_aliases_spec(env, *inner),
        SpecExpr::If(c, t, f) => first_problem(
            expr_aliases_spec(env, *c),
            first_problem(expr_aliases_spec(env, *t), expr_aliases_spec(env, *f)),
        ),
        SpecExpr::Let(_, ann, v, b) => first_problem(
            match ann {
                Some(t) => bound_aliases_spec(env, t),
                None => None,
            },
            first_problem(expr_aliases_spec(env, *v), expr_aliases_spec(env, *b)),
        ),
        SpecExpr::Lambda(_, t, b) => first_problem(bound_aliases_spec(env, t), expr_aliases_spec(env, *b)),
        SpecExpr::Apply(f, a) => first_problem(expr_aliases_spec(env, *f), expr_aliases_spec(env, *a)),
        SpecExpr::Ascribe(x, t) => first_problem(expr_aliases_spec(env, *x), bound_aliases_spec(env, t)),
        SpecExpr::Unary(_, x) => expr_aliases_spec(env, *x),
        SpecExpr::Binary(_, l, r) => first_problem(expr_aliases_spec(env, *l), expr_aliases_spec(env, *r)),
        _ => None,
    }
}

/// The first problem among the items of a list, in order.
pub open spec fn list_aliases_spec(env: CoreTypeEnv, items: Seq<SpecExpr>) -> Option<ErrorCode>
    decreases items, 0nat,
{
    if items.len() == 0 {
        None
    } else {
        first_problem(expr_aliases_spec(env, items[0]), list_aliases_spec(env, items.drop_first()))
    }
}

/// The first problem among the field expressions of a record, in order.
pub open spec fn field_exprs_aliases_spec(env: CoreTypeEnv, fs: Seq<(Seq<char>, SpecExpr)>) -> Option<ErrorCode>
    decreases fs, 0nat,
{
    if fs.len() == 0 {
        None
    } else {
        first_problem(expr_aliases_spec(env, fs[0].1), field_exprs_aliases_spec(env, fs.drop_first()))
    }
}

/// Checks that every alias named by a type written in `expr` is bound in
/// `aliases`.
#[verifier::loop_isolation(false)]
pub fn well_formed_expr(expr: &CoreExpr, aliases: &CoreTypeEnv) -> (r: Result<()>)
    ensures
        match r {
            Ok(()) => expr_aliases_spec(*aliases, expr@) is None,
            Err(e) => expr_aliases_spec(*aliases, expr@) == Some(e.code_spec()),
        },
    decreases expr,
{
    match expr {
        CoreExpr::Spanned(inner, _) => well_formed_expr(inner, aliases),
        CoreExpr::OptSome(inner) => well_formed_expr(inner, aliases),
        CoreExpr::List(items) => {
            let ghost iv = expr_list_view(items@);
            proof {
                lemma_expr_list_view(items@);
                assert(iv.skip(0) =~= iv);
            }
            let mut i: usize = 0;
            while i < items.len()
                invariant
                    i <= items@.len(),
                    iv.len() == items@.len(),
                    list_aliases_spec(*aliases, iv) == list_aliases_spec(*aliases, iv.skip(i as int)),
                decreases items.len() - i,
            {
                proof {
                    assert(decreases_to!(items => items@[i as int]));
                    assert(iv.skip(i as int).drop_first() =~= iv.skip(i + 1));
                    assert(iv.skip(i as int)[0] == iv[i as int]);
                }
                well_formed_expr(&items[i], aliases)?;
                i = i + 1;
            }
            proof {
                assert(iv.skip(i as int) =~= Seq::<SpecExpr>::empty());
            }
            Ok(())
        },
        CoreExpr::Record(fields) => {
            let ghost fv = expr_fields_view(fields.entries@);
            proof {
                lemma_expr_fields_view(fields.entries@);
                assert(fv.skip(0) =~= fv);
            }
            let mut i: usize = 0;
            while i < fields.entries.len()
                invariant
                    i <= fields.entries@.len(),
                    fv.len() == fields.entries@.len(),
                    field_exprs_aliases_spec(*aliases, fv) == field_exprs_aliases_spec(*aliases, fv.skip(i as int)),
                decreases fields.entries.len() - i,
            {
                proof {
                    assert(decreases_to!(fields.entries => fields.entries@[i as int]));
                    assert(fv.skip(i as int).drop_first() =~= fv.skip(i + 1));
                    assert(fv.skip(i as int)[0] == fv[i as int]);
                }
                well_formed_expr(&fields.entries[i].1, aliases)?;
                i = i + 1;
            }
            proof {
                assert(fv.skip(i as int) =~= Seq::<(Seq<char>, SpecExpr)>::empty());
            }
            Ok(())
        },
        CoreExpr::Field(inner, _) => well_formed_expr(inner, aliases),
        CoreExpr::If(c, t, f) => {
            well_formed_expr(c, aliases)?;
            well_formed_expr(t, aliases)?;
            well_formed_expr(f, aliases)
        },
        CoreExpr::Let(_, ann, v, b) => {
            match ann {
                Some(t) => well_formed_type(t, aliases)?,
                None => {},
            }
            well_formed_expr(v, aliases)?;
            well_formed_expr(b, aliases)
        },
        CoreExpr::Lambda(_, t, b) => {
            well_formed_type(t, aliases)?;
            well_formed_expr(b, aliases)
        },
        CoreExpr::Apply(f, a) => {
            well_formed_expr(f, aliases)?;
            well_formed_expr(a, aliases)
        },
        CoreExpr::Ascribe(x, t) => {
            well_formed_expr(x, aliases)?;
            well_formed_type(t, aliases)
        },
        CoreExpr::Unary(_, x) => well_formed_expr(x, aliases),
        CoreExpr::Binary(_, l, r) => {
            well_formed_expr(l, aliases)?;
            well_formed_expr(r, aliases)
        },
        _ => Ok(()),
    }
}

} // verus!
