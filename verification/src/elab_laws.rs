//! What elaboration leaves of an expression: no ascription, and no `let`
//! with an annotation.

use vstd::prelude::*;

use crate::core_lang::ast::{SpecExpr, SpecType};
use crate::error::ErrorCode;
use crate::fields::{lemma_lookup_some_index, lookup};
use crate::typeck::elaborate::{
    elab_fields_spec, elab_spec, reelab_fields_spec, reelab_spec, tsize, unchecked_fields_spec, unchecked_list_spec,
    unchecked_spec,
};

verus! {

/// The expression holds no ascription and no annotated `let`, at any depth
/// (the types written in lambdas are not looked into).
pub open spec fn unannotated(e: SpecExpr) -> bool
    decreases e, 0nat,
{
    match e {
        SpecExpr::Spanned(inner, _) => unannotated(*inner),
        SpecExpr::OptSome(inner) => unannotated(*inner),
        SpecExpr::List(items) => unannotated_list(items),
        SpecExpr::Record(fs) => unannotated_fields(fs),
        SpecExpr::Field(inner, _) => unannotated(*inner),
        SpecExpr::If(c, t, f) => unannotated(*c) && unannotated(*t) && unannotated(*f),
        SpecExpr::Let(_, ann, v, b) => ann is None && unannotated(*v) && unannotated(*b),
        SpecExpr::Lambda(_, _, b) => unannotated(*b),
        SpecExpr::Apply(f, a) => unannotated(*f) && unannotated(*a),
        SpecExpr::Ascribe(..) => false,
        SpecExpr::Unary(_, x) => unannotated(*x),
        SpecExpr::Binary(_, l, r) => unannotated(*l) && unannotated(*r),
        _ => true,
    }
}

pub open spec fn unannotated_list(items: Seq<SpecExpr>) -> bool
    decreases items, 0nat,
{
    if items.len() == 0 {
        true
    } else {
        unannotated(items[0]) && unannotated_list(items.drop_first())
    }
}

pub open spec fn unannotated_fields(fs: Seq<(Seq<char>, SpecExpr)>) -> bool
    decreases fs, 0nat,
{
    if fs.len() == 0 {
        true
    } else {
        unannotated(fs[0].1) && unannotated_fields(fs.drop_first())
    }
}

/// Elaborating an expression without an expected type (`prepare_expr`)
/// leaves no ascription and no annotated `let` in what it gives: each is
/// checked and erased; checking against an expected type leaves none
/// either.
pub proof fn law_elaboration_erases_annotations(e: SpecExpr, t: SpecType)
    ensures
        unchecked_spec(e) matches Ok(r) ==> unannotated(r),
        elab_spec(e, t) matches Ok(r) ==> unannotated(r),
{
    lemma_unchecked(e);
    lemma_elab(e, t);
}

proof fn lemma_unchecked(e: SpecExpr)
    ensures
        unchecked_spec(e) matches Ok(r) ==> unannotated(r),
    decreases e, 0nat, 0nat,
{
    match e {
        SpecExpr::Spanned(inner, _) => lemma_unchecked(*inner),
        SpecExpr::OptSome(inner) => lemma_unchecked(*inner),
        SpecExpr::List(items) => lemma_unchecked_list(items),
        SpecExpr::Record(fs) => lemma_unchecked_fields(fs),
        SpecExpr::Field(inner, _) => lemma_unchecked(*inner),
        SpecExpr::If(c, t, f) => {
            lemma_unchecked(*c);
            lemma_unchecked(*t);
            lemma_unchecked(*f);
        },
        SpecExpr::Let(_, ann, value, body) => {
            match ann {
                Some(ty) => lemma_elab(*value, ty),
                None => lemma_unchecked(*value),
            }
            lemma_unchecked(*body);
        },
        SpecExpr::Lambda(_, _, body) => lemma_unchecked(*body),
        SpecExpr::Apply(f, a) => {
            lemma_unchecked(*f);
            lemma_unchecked(*a);
        },
        SpecExpr::Ascribe(inner, ty) => lemma_elab(*inner, ty),
        SpecExpr::Unary(_, inner) => lemma_unchecked(*inner),
        SpecExpr::Binary(_, l, r) => {
            lemma_unchecked(*l);
            lemma_unchecked(*r);
        },
        _ => {},
    }
}

proof fn lemma_unchecked_list(items: Seq<SpecExpr>)
    ensures
        unchecked_list_spec(items) matches Ok(r) ==> unannotated_list(r),
    decreases items, 0nat, 0nat,
{
    if items.len() > 0 {
        lemma_unchecked(items[0]);
        lemma_unchecked_list(items.drop_first());
        if let Ok(r) = unchecked_list_spec(items) {
            let x = unchecked_spec(items[0])->Ok_0;
            let rest = unchecked_list_spec(items.drop_first())->Ok_0;
            assert(r == seq![x] + rest);
            assert((seq![x] + rest).drop_first() =~= rest);
        }
    }
}

proof fn lemma_unchecked_fields(fs: Seq<(Seq<char>, SpecExpr)>)
    ensures
        unchecked_fields_spec(fs) matches Ok(r) ==> unannotated_fields(r),
    decreases fs, 0nat, 0nat,
{
    if fs.len() > 0 {
        lemma_unchecked(fs[0].1);
        lemma_unchecked_fields(fs.drop_first());
        if let Ok(r) = unchecked_fields_spec(fs) {
            let x = unchecked_spec(fs[0].1)->Ok_0;
            let rest = unchecked_fields_spec(fs.drop_first())->Ok_0;
            assert(r == seq![(fs[0].0, x)] + rest);
            assert((seq![(fs[0].0, x)] + rest).drop_first() =~= rest);
        }
    }
}

proof fn lemma_elab(e: SpecExpr, t: SpecType)
    ensures
        elab_spec(e, t) matches Ok(r) ==> unannotated(r),
    decreases e, tsize(t), 1nat,
{
    match e {
        SpecExpr::Spanned(inner, _) => lemma_elab(*inner, t),
        SpecExpr::Ascribe(inner, ty) => {
            lemma_elab(*inner, ty);
            if let Ok(x) = elab_spec(*inner, ty) {
                lemma_reelab(x, t);
            }
        },
        _ => match t {
            SpecType::Option(inner) => match e {
                SpecExpr::OptNone => {},
                SpecExpr::OptSome(x) => lemma_elab(*x, *inner),
                _ => lemma_elab(e, *inner),
            },
            SpecType::Record(tfs) => match e {
                SpecExpr::Record(efs) => lemma_elab_fields(efs, tfs),
                _ => lemma_unchecked(e),
            },
            SpecType::Refinement { base, .. } => lemma_elab(e, *base),
            SpecType::LiteralUnion(_) => lemma_elab(e, SpecType::Str),
            _ => lemma_unchecked(e),
        },
    }
}

proof fn lemma_elab_fields(efs: Seq<(Seq<char>, SpecExpr)>, tfs: Seq<(Seq<char>, SpecType)>)
    ensures
        elab_fields_spec(efs, tfs) matches Ok(r) ==> unannotated_fields(r),
    decreases efs, tfs.len(), 0nat,
{
    if tfs.len() > 0 {
        if let Some(v) = lookup(efs, tfs[0].0) {
            lemma_lookup_some_index(efs, tfs[0].0);
            let i = choose|i: int| 0 <= i < efs.len() && efs[i].0 == tfs[0].0 && lookup(efs, tfs[0].0) == Some(efs[i].1);
            assert(decreases_to!(efs => efs[i]));
            lemma_elab(v, tfs[0].1);
        }
        lemma_elab_fields(efs, tfs.drop_first());
        if let Ok(r) = elab_fields_spec(efs, tfs) {
            let rest = elab_fields_spec(efs, tfs.drop_first())->Ok_0;
            match lookup(efs, tfs[0].0) {
                Some(v) => {
                    let x = elab_spec(v, tfs[0].1)->Ok_0;
                    assert(r == seq![(tfs[0].0, x)] + rest);
                },
                None => {
                    assert(r == seq![(tfs[0].0, SpecExpr::OptNone)] + rest);
                },
            }
            assert(r.drop_first() =~= rest);
            assert(r[0] == (seq![r[0]] + rest)[0]);
            assert(unannotated(r[0].1));
            assert(unannotated_fields(r.drop_first()));
        }
    }
}

/// A field value found in unannotated fields is unannotated.
proof fn lemma_lookup_unannotated(fs: Seq<(Seq<char>, SpecExpr)>, key: Seq<char>)
    requires
        unannotated_fields(fs),
    ensures
        lookup(fs, key) matches Some(v) ==> unannotated(v),
    decreases fs.len(),
{
    if fs.len() > 0 && fs[0].0 != key {
        lemma_lookup_unannotated(fs.drop_first(), key);
    }
}

proof fn lemma_reelab(e: SpecExpr, t: SpecType)
    requires
        unannotated(e),
    ensures
        reelab_spec(e, t) matches Ok(r) ==> unannotated(r),
    decreases e, tsize(t), 1nat,
{
    match e {
        SpecExpr::Spanned(inner, _) => lemma_reelab(*inner, t),
        _ => match t {
            SpecType::Option(inner) => match e {
                SpecExpr::OptNone => {},
                SpecExpr::OptSome(x) => lemma_reelab(*x, *inner),
                _ => lemma_reelab(e, *inner),
            },
            SpecType::Record(tfs) => match e {
                SpecExpr::Record(efs) => lemma_reelab_fields(efs, tfs),
                _ => {},
            },
            SpecType::Refinement { base, .. } => lemma_reelab(e, *base),
            SpecType::LiteralUnion(_) => lemma_reelab(e, SpecType::Str),
            _ => {},
        },
    }
}

proof fn lemma_reelab_fields(efs: Seq<(Seq<char>, SpecExpr)>, tfs: Seq<(Seq<char>, SpecType)>)
    requires
        unannotated_fields(efs),
    ensures
        reelab_fields_spec(efs, tfs) matches Ok(r) ==> unannotated_fields(r),
    decreases efs, tfs.len(), 0nat,
{
    if tfs.len() > 0 {
        if let Some(v) = lookup(efs, tfs[0].0) {
            lemma_lookup_some_index(efs, tfs[0].0);
            let i = choose|i: int| 0 <= i < efs.len() && efs[i].0 == tfs[0].0 && lookup(efs, tfs[0].0) == Some(efs[i].1);
            assert(decreases_to!(efs => efs[i]));
            lemma_lookup_unannotated(efs, tfs[0].0);
            lemma_reelab(v, tfs[0].1);
        }
        lemma_reelab_fields(efs, tfs.drop_first());
        if let Ok(r) = reelab_fields_spec(efs, tfs) {
            let rest = reelab_fields_spec(efs, tfs.drop_first())->Ok_0;
            match lookup(efs, tfs[0].0) {
                Some(v) => {
                    let x = reelab_spec(v, tfs[0].1)->Ok_0;
                    assert(r == seq![(tfs[0].0, x)] + rest);
                },
                None => {
                    assert(r == seq![(tfs[0].0, SpecExpr::OptNone)] + rest);
                },
            }
            assert(r.drop_first() =~= rest);
            assert(r[0] == (seq![r[0]] + rest)[0]);
            assert(unannotated(r[0].1));
            assert(unannotated_fields(r.drop_first()));
        }
    }
}

} // verus!
