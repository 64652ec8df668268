//! Bidirectional elaboration of core expressions: checking an expression
//! against an expected type inserts implicit `some`, fills omitted optional
//! record fields and erases ascriptions and checked `let` annotations;
//! synthesis computes the type of an expression that needs no expectation.

use vstd::prelude::*;

use crate::core_lang::ast::{
    lemma_expr_fields_view, lemma_expr_list_view, lemma_type_fields_view, CoreExpr, CoreType,
    SpecExpr, SpecType, TypedCoreExpr, expr_fields_view, expr_list_view, expr_view,
    type_fields_view,
};
use crate::error::{Error, ErrorCode, Result};
use crate::fields::{has_key, lemma_lookup_first, lemma_lookup_none, lookup, FieldMap};
use crate::text::concat3;
use crate::core_lang::ast::ElaboratedExpr;
use crate::typeck::scope::ValueTypeScope;
use crate::typeck::synth::{synth_spec, unsynth_code};

verus! {

broadcast use vstd::std_specs::vec::group_vec_axioms;

/// The outcome of elaboration in the model: an expression, or the code of
/// the error that stopped it.
pub type CodeResult<T> = core::result::Result<T, ErrorCode>;

/// A measure on expected types that shrinks whenever elaboration moves to a
/// part of the expected type while keeping the expression.
pub open spec fn tsize(t: SpecType) -> nat
    decreases t,
{
    match t {
        SpecType::Spanned(inner, _) => 1 + tsize(*inner),
        SpecType::Option(inner) => 1 + tsize(*inner),
        SpecType::List(inner) => 1 + tsize(*inner),
        SpecType::Refinement { base, .. } => 1 + tsize(*base),
        SpecType::Function(i, o) => 1 + tsize(*i) + tsize(*o),
        SpecType::LiteralUnion(_) => 2,
        _ => 1,
    }
}

/// Whether a value of the type may be left out of a record: options, also
/// under spans and refinements.
pub open spec fn is_option_spec(t: SpecType) -> bool
    decreases t,
{
    match t {
        SpecType::Spanned(inner, _) => is_option_spec(*inner),
        SpecType::Option(_) => true,
        SpecType::Refinement { base, .. } => is_option_spec(*base),
        _ => false,
    }
}

/// Whether some field of the record expression is not a field of the type.
pub open spec fn has_unknown_field(efs: Seq<(Seq<char>, SpecExpr)>, tfs: Seq<(Seq<char>, SpecType)>) -> bool {
    exists|i: int| 0 <= i < efs.len() && !has_key(tfs, #[trigger] efs[i].0)
}

/// Checking `e` against `t`: the elaborated expression, or the code of the
/// first error.
pub open spec fn elab_spec(e: SpecExpr, t: SpecType) -> CodeResult<SpecExpr>
    decreases e, tsize(t), 1nat,
{
    match e {
        SpecExpr::Spanned(inner, span) => match elab_spec(*inner, t) {
            Ok(x) => Ok(SpecExpr::Spanned(Box::new(x), span)),
            Err(c) => Err(c),
        },
        SpecExpr::Ascribe(inner, ty) => match elab_spec(*inner, ty) {
            Ok(x) => reelab_spec(x, t),
            Err(c) => Err(c),
        },
        _ => match t {
            SpecType::Option(inner) => match e {
                SpecExpr::OptNone => Ok(SpecExpr::OptNone),
                SpecExpr::OptSome(x) => match elab_spec(*x, *inner) {
                    Ok(y) => Ok(SpecExpr::OptSome(Box::new(y))),
                    Err(c) => Err(c),
                },
                _ => match elab_spec(e, *inner) {
                    Ok(y) => Ok(SpecExpr::OptSome(Box::new(y))),
                    Err(c) => Err(c),
                },
            },
            SpecType::Record(tfs) => match e {
                SpecExpr::Record(efs) => if has_unknown_field(efs, tfs) {
                    Err(ErrorCode::RecordUnknownField)
                } else {
                    match elab_fields_spec(efs, tfs) {
                        Ok(fs) => Ok(SpecExpr::Record(fs)),
                        Err(c) => Err(c),
                    }
                },
                _ => unchecked_spec(e),
            },
            SpecType::Refinement { base, .. } => elab_spec(e, *base),
            SpecType::LiteralUnion(_) => elab_spec(e, SpecType::Str),
            _ => unchecked_spec(e),
        },
    }
}

/// The fields of a checked record, in the order of the type's fields.
pub open spec fn elab_fields_spec(efs: Seq<(Seq<char>, SpecExpr)>, tfs: Seq<(Seq<char>, SpecType)>) -> CodeResult<Seq<(Seq<char>, SpecExpr)>>
    decreases efs, tfs.len(), 0nat,
{
    if tfs.len() == 0 {
        Ok(Seq::empty())
    } else {
        let head = match lookup(efs, tfs[0].0) {
            Some(v) => {
                proof {
                    crate::fields::lemma_lookup_some_index(efs, tfs[0].0);
                    let i = choose|i: int| 0 <= i < efs.len() && efs[i].0 == tfs[0].0 && lookup(efs, tfs[0].0) == Some(efs[i].1);
                    assert(decreases_to!(efs => efs[i]));
                }
                elab_spec(v, tfs[0].1)
            },
            None => if is_option_spec(tfs[0].1) {
                Ok(SpecExpr::OptNone)
            } else {
                Err(ErrorCode::RecordMissingField)
            },
        };
        match head {
            Err(c) => Err(c),
            Ok(x) => match elab_fields_spec(efs, tfs.drop_first()) {
                Ok(rest) => Ok(seq![(tfs[0].0, x)] + rest),
                Err(c) => Err(c),
            },
        }
    }
}

/// Elaboration without an expected type: ascriptions and annotated `let`s
/// are checked and erased, everything else is kept.
pub open spec fn unchecked_spec(e: SpecExpr) -> CodeResult<SpecExpr>
    decreases e, 0nat, 0nat,
{
    match e {
        SpecExpr::Spanned(inner, span) => match unchecked_spec(*inner) {
            Ok(x) => Ok(SpecExpr::Spanned(Box::new(x), span)),
            Err(c) => Err(c),
        },
        SpecExpr::OptSome(inner) => match unchecked_spec(*inner) {
            Ok(x) => Ok(SpecExpr::OptSome(Box::new(x))),
            Err(c) => Err(c),
        },
        SpecExpr::List(items) => match unchecked_list_spec(items) {
            Ok(xs) => Ok(SpecExpr::List(xs)),
            Err(c) => Err(c),
        },
        SpecExpr::Record(fs) => match unchecked_fields_spec(fs) {
            Ok(xs) => Ok(SpecExpr::Record(xs)),
            Err(c) => Err(c),
        },
        SpecExpr::Field(inner, name) => match unchecked_spec(*inner) {
            Ok(x) => Ok(SpecExpr::Field(Box::new(x), name)),
            Err(c) => Err(c),
        },
        SpecExpr::If(c, t, f) => match unchecked_spec(*c) {
            Err(code) => Err(code),
            Ok(c2) => match unchecked_spec(*t) {
                Err(code) => Err(code),
                Ok(t2) => match unchecked_spec(*f) {
                    Err(code) => Err(code),
                    Ok(f2) => Ok(SpecExpr::If(Box::new(c2), Box::new(t2), Box::new(f2))),
                },
            },
        },
        SpecExpr::Let(name, ann, value, body) => {
            let v = match ann {
                Some(ty) => elab_spec(*value, ty),
                None => unchecked_spec(*value),
            };
            match v {
                Err(code) => Err(code),
                Ok(v2) => match unchecked_spec(*body) {
                    Err(code) => Err(code),
                    Ok(b2) => Ok(SpecExpr::Let(name, None, Box::new(v2), Box::new(b2))),
                },
            }
        },
        SpecExpr::Lambda(param, ty, body) => match unchecked_spec(*body) {
            Ok(b2) => Ok(SpecExpr::Lambda(param, ty, Box::new(b2))),
            Err(c) => Err(c),
        },
        SpecExpr::Apply(f, a) => match unchecked_spec(*f) {
            Err(code) => Err(code),
            Ok(f2) => match unchecked_spec(*a) {
                Err(code) => Err(code),
                Ok(a2) => Ok(SpecExpr::Apply(Box::new(f2), Box::new(a2))),
            },
        },
        SpecExpr::Ascribe(inner, ty) => elab_spec(*inner, ty),
        SpecExpr::Unary(op, inner) => match unchecked_spec(*inner) {
            Ok(x) => Ok(SpecExpr::Unary(op, Box::new(x))),
            Err(c) => Err(c),
        },
        SpecExpr::Binary(op, l, r) => match unchecked_spec(*l) {
            Err(code) => Err(code),
            Ok(l2) => match unchecked_spec(*r) {
                Err(code) => Err(code),
                Ok(r2) => Ok(SpecExpr::Binary(op, Box::new(l2), Box::new(r2))),
            },
        },
        _ => Ok(e),
    }
}

pub open spec fn unchecked_list_spec(items: Seq<SpecExpr>) -> CodeResult<Seq<SpecExpr>>
    decreases items, 0nat, 0nat,
{
    if items.len() == 0 {
        Ok(Seq::empty())
    } else {
        match unchecked_spec(items[0]) {
            Err(c) => Err(c),
            Ok(x) => match unchecked_list_spec(items.drop_first()) {
                Ok(rest) => Ok(seq![x] + rest),
                Err(c) => Err(c),
            },
        }
    }
}

pub open spec fn unchecked_fields_spec(fs: Seq<(Seq<char>, SpecExpr)>) -> CodeResult<Seq<(Seq<char>, SpecExpr)>>
    decreases fs, 0nat, 0nat,
{
    if fs.len() == 0 {
        Ok(Seq::empty())
    } else {
        match unchecked_spec(fs[0].1) {
            Err(c) => Err(c),
            Ok(x) => match unchecked_fields_spec(fs.drop_first()) {
                Ok(rest) => Ok(seq![(fs[0].0, x)] + rest),
                Err(c) => Err(c),
            },
        }
    }
}

/// Re-checking an already elaborated expression against a new expected type
/// (what checking an ascription does with its result).
pub open spec fn reelab_spec(e: SpecExpr, t: SpecType) -> CodeResult<SpecExpr>
    decreases e, tsize(t), 1nat,
{
    match e {
        SpecExpr::Spanned(inner, span) => match reelab_spec(*inner, t) {
            Ok(x) => Ok(SpecExpr::Spanned(Box::new(x), span)),
            Err(c) => Err(c),
        },
        _ => match t {
            SpecType::Option(inner) => match e {
                SpecExpr::OptNone => Ok(SpecExpr::OptNone),
                SpecExpr::OptSome(x) => match reelab_spec(*x, *inner) {
                    Ok(y) => Ok(SpecExpr::OptSome(Box::new(y))),
                    Err(c) => Err(c),
                },
                _ => match reelab_spec(e, *inner) {
                    Ok(y) => Ok(SpecExpr::OptSome(Box::new(y))),
                    Err(c) => Err(c),
                },
            },
            SpecType::Record(tfs) => match e {
                SpecExpr::Record(efs) => if has_unknown_field(efs, tfs) {
                    Err(ErrorCode::RecordUnknownField)
                } else {
                    match reelab_fields_spec(efs, tfs) {
                        Ok(fs) => Ok(SpecExpr::Record(fs)),
                        Err(c) => Err(c),
                    }
                },
                _ => Ok(e),
            },
            SpecType::Refinement { base, .. } => reelab_spec(e, *base),
            SpecType::LiteralUnion(_) => reelab_spec(e, SpecType::Str),
            _ => Ok(e),
        },
    }
}

pub open spec fn reelab_fields_spec(efs: Seq<(Seq<char>, SpecExpr)>, tfs: Seq<(Seq<char>, SpecType)>) -> CodeResult<Seq<(Seq<char>, SpecExpr)>>
    decreases efs, tfs.len(), 0nat,
{
    if tfs.len() == 0 {
        Ok(Seq::empty())
    } else {
        let head = match lookup(efs, tfs[0].0) {
            Some(v) => {
                proof {
                    crate::fields::lemma_lookup_some_index(efs, tfs[0].0);
                    let i = choose|i: int| 0 <= i < efs.len() && efs[i].0 == tfs[0].0 && lookup(efs, tfs[0].0) == Some(efs[i].1);
                    assert(decreases_to!(efs => efs[i]));
                }
                reelab_spec(v, tfs[0].1)
            },
            None => if is_option_spec(tfs[0].1) {
                Ok(SpecExpr::OptNone)
            } else {
                Err(ErrorCode::RecordMissingField)
            },
        };
        match head {
            Err(c) => Err(c),
            Ok(x) => match reelab_fields_spec(efs, tfs.drop_first()) {
                Ok(rest) => Ok(seq![(tfs[0].0, x)] + rest),
                Err(c) => Err(c),
            },
        }
    }
}

/// An executable result agrees with a model result: the same expression, or
/// an error with the same code.
pub open spec fn agrees(r: Result<CoreExpr>, s: CodeResult<SpecExpr>) -> bool {
    match r {
        Ok(x) => s == Ok::<SpecExpr, ErrorCode>(x@),
        Err(e) => s == Err::<SpecExpr, ErrorCode>(e.code_spec()),
    }
}

/// Whether a value of the type may be omitted from a record.
pub fn is_option_type(ty: &CoreType) -> (b: bool)
    ensures
        b == is_option_spec(ty@),
    decreases ty,
{
    match ty {
        CoreType::Spanned(inner, _) => is_option_type(inner),
        CoreType::Option(_) => true,
        CoreType::Refinement { base, .. } => is_option_type(base),
        _ => false,
    }
}

/// Elaborates core expressions against expected types.
#[derive(Default)]
pub struct CoreElaborator;

impl CoreElaborator {
    pub fn new() -> (e: CoreElaborator) {
        CoreElaborator
    }

    /// Checks `expr` against `expected`; the result carries the expected type.
    pub fn check_expr(&mut self, expr: CoreExpr, expected: &CoreType) -> (r: Result<TypedCoreExpr>)
        ensures
            match r {
                Ok(typed) => elab_spec(expr@, expected@) == Ok::<SpecExpr, ErrorCode>(typed.expr@) && typed.ty@ == expected@,
                Err(e) => elab_spec(expr@, expected@) == Err::<SpecExpr, ErrorCode>(e.code_spec()),
            },
        decreases expr@, tsize(expected@), 2nat,
    {
        let expr = self.elaborate_expr(expr, expected)?;
        Ok(TypedCoreExpr { expr, ty: expected.duplicate() })
    }

    /// Elaborates an expression that has no expected type.
    pub fn prepare_expr(&mut self, expr: CoreExpr) -> (r: Result<CoreExpr>)
        ensures
            agrees(r, unchecked_spec(expr@)),
    {
        self.elaborate_unchecked_expr(expr)
    }

    fn elaborate_expr(&mut self, expr: CoreExpr, expected: &CoreType) -> (r: Result<CoreExpr>)
        ensures
            agrees(r, elab_spec(expr@, expected@)),
        decreases expr@, tsize(expected@), 1nat,
    {
        match expr {
            CoreExpr::Spanned(inner, span) => {
                let x = self.elaborate_expr(*inner, expected)?;
                return Ok(CoreExpr::Spanned(Box::new(x), span));
            },
            CoreExpr::Ascribe(inner, ty) => {
                let typed = self.check_expr(*inner, &ty)?;
                return self.reelaborate(typed.expr, expected);
            },
            expr => match expected {
                CoreType::Option(inner) => self.elaborate_option(expr, inner),
                CoreType::Record(fields) => match expr {
                    CoreExpr::Record(expr_fields) => self.elaborate_record(expr_fields, fields),
                    expr => self.elaborate_unchecked_expr(expr),
                },
                CoreType::Refinement { base, .. } => self.elaborate_expr(expr, base),
                CoreType::LiteralUnion(_) => self.elaborate_expr(expr, &CoreType::String),
                _ => self.elaborate_unchecked_expr(expr),
            },
        }
    }

    fn elaborate_option(&mut self, expr: CoreExpr, inner: &CoreType) -> (r: Result<CoreExpr>)
        requires
            !(expr@ is Spanned),
            !(expr@ is Ascribe),
        ensures
            agrees(r, match expr@ {
                SpecExpr::OptNone => Ok(SpecExpr::OptNone),
                SpecExpr::OptSome(x) => match elab_spec(*x, inner@) {
                    Ok(y) => Ok(SpecExpr::OptSome(Box::new(y))),
                    Err(c) => Err(c),
                },
                _ => match elab_spec(expr@, inner@) {
                    Ok(y) => Ok(SpecExpr::OptSome(Box::new(y))),
                    Err(c) => Err(c),
                },
            }),
        decreases expr@, tsize(inner@) + 1, 0nat,
    {
        match expr {
            CoreExpr::OptNone => Ok(CoreExpr::OptNone),
            CoreExpr::OptSome(x) => Ok(CoreExpr::OptSome(Box::new(self.elaborate_expr(*x, inner)?))),
            expr => Ok(CoreExpr::OptSome(Box::new(self.elaborate_expr(expr, inner)?))),
        }
    }

    /// Checks a record expression against record field types: unknown fields
    /// are refused, omitted optional fields become `none`, missing ones are refused.
    #[verifier::loop_isolation(false)]
    fn elaborate_record(&mut self, expr_fields: FieldMap<CoreExpr>, fields: &FieldMap<CoreType>) -> (r: Result<CoreExpr>)
        ensures
            agrees(r, {
                let efs = expr_fields_view(expr_fields.entries@);
                let tfs = type_fields_view(fields.entries@);
                if has_unknown_field(efs, tfs) {
                    Err(ErrorCode::RecordUnknownField)
                } else {
                    match elab_fields_spec(efs, tfs) {
                        Ok(fs) => Ok(SpecExpr::Record(fs)),
                        Err(c) => Err(c),
                    }
                }
            }),
        decreases expr_fields_view(expr_fields.entries@), fields.entries@.len() + 1, 0nat,
    {
        let ghost efs = expr_fields_view(expr_fields.entries@);
        let ghost tfs = type_fields_view(fields.entries@);
        proof {
            lemma_expr_fields_view(expr_fields.entries@);
            lemma_type_fields_view(fields.entries@);
        }
        let mut k: usize = 0;
        while k < expr_fields.entries.len()
            invariant
                k <= expr_fields.entries@.len(),
                forall|j: int| 0 <= j < k ==> has_key(tfs, #[trigger] efs[j].0),
            decreases expr_fields.entries.len() - k,
        {
            let name = expr_fields.entries[k].0.as_str();
            if !fields.contains_key(name) {
                proof {
                    assert forall|q: int| 0 <= q < tfs.len() implies tfs[q].0 != efs[k as int].0 by {
                        assert(tfs[q].0 == fields.entries@[q].0@);
                    }
                }
                return Err(Error::with_code(
                    ErrorCode::RecordUnknownField,
                    concat3("unknown field `", name, "`").as_str(),
                ));
            }
            proof {
                let q = choose|q: int| 0 <= q < fields.entries@.len() && #[trigger] fields.entries@[q].0@ == name@;
                assert(tfs[q].0 == efs[k as int].0);
            }
            k = k + 1;
        }
        assert(!has_unknown_field(efs, tfs));
        let mut out: Vec<(String, CoreExpr)> = Vec::new();
        let mut i: usize = 0;
        assert(tfs.skip(0) =~= tfs);
        while i < fields.entries.len()
            invariant
                i <= fields.entries@.len(),
                tfs.len() == fields.entries@.len(),
                elab_fields_spec(efs, tfs) == match elab_fields_spec(efs, tfs.skip(i as int)) {
                    Ok(rest) => Ok(expr_fields_view(out@) + rest),
                    Err(c) => Err::<Seq<(Seq<char>, SpecExpr)>, ErrorCode>(c),
                },
            decreases fields.entries.len() - i,
        {
            let name = &fields.entries[i].0;
            let ty = &fields.entries[i].1;
            let ghost sub = tfs.skip(i as int);
            assert(sub[0] == tfs[i as int]);
            assert(sub.drop_first() =~= tfs.skip(i + 1));
            let ghost ees = expr_fields.entries@;
            let value = match expr_fields.get(name.as_str()) {
                Some(e) => {
                    let ghost found = *e;
                    proof {
                        let q = choose|q: int|
                            0 <= q < ees.len() && ees[q].0@ == name@ && ees[q].1 == *e
                                && forall|j: int| 0 <= j < q ==> ees[j].0@ != name@;
                        lemma_lookup_first(efs, name@, q);
                        assert(decreases_to!(expr_fields.entries => expr_fields.entries@[q]));
                    }
                    let copy = e.duplicate();
                    self.elaborate_expr(copy, ty)?
                },
                None => {
                    proof {
                        lemma_lookup_none(efs, name@);
                    }
                    if is_option_type(ty) {
                        CoreExpr::OptNone
                    } else {
                        return Err(Error::with_code(
                            ErrorCode::RecordMissingField,
                            concat3("missing field `", name.as_str(), "`").as_str(),
                        ));
                    }
                },
            };
            let ghost prev = out@;
            out.push((name.clone(), value));
            proof {
                lemma_expr_fields_view(prev);
                lemma_expr_fields_view(out@);
                let hd = (sub[0].0, value@);
                assert(expr_fields_view(out@) =~= expr_fields_view(prev) + seq![hd]);
                assert(elab_fields_spec(efs, sub) == match elab_fields_spec(efs, tfs.skip(i + 1)) {
                    Ok(rest) => Ok(seq![hd] + rest),
                    Err(c) => Err::<Seq<(Seq<char>, SpecExpr)>, ErrorCode>(c),
                });
                match elab_fields_spec(efs, tfs.skip(i + 1)) {
                    Ok(rest) => {
                        assert(expr_fields_view(prev) + (seq![hd] + rest) =~= expr_fields_view(out@) + rest);
                    },
                    Err(_) => {},
                }
            }
            i = i + 1;
        }
        proof {
            assert(tfs.skip(i as int) =~= Seq::<(Seq<char>, SpecType)>::empty());
            assert(expr_fields_view(out@) + Seq::<(Seq<char>, SpecExpr)>::empty() =~= expr_fields_view(out@));
        }
        Ok(CoreExpr::Record(FieldMap { entries: out }))
    }

    /// Re-checks an elaborated record against record field types, with the
    /// same rules as `elaborate_record`.
    #[verifier::loop_isolation(false)]
    fn reelaborate_record(&mut self, expr_fields: FieldMap<CoreExpr>, fields: &FieldMap<CoreType>) -> (r: Result<CoreExpr>)
        ensures
            agrees(r, {
                let efs = expr_fields_view(expr_fields.entries@);
                let tfs = type_fields_view(fields.entries@);
                if has_unknown_field(efs, tfs) {
                    Err(ErrorCode::RecordUnknownField)
                } else {
                    match reelab_fields_spec(efs, tfs) {
                        Ok(fs) => Ok(SpecExpr::Record(fs)),
                        Err(c) => Err(c),
                    }
                }
            }),
        decreases expr_fields_view(expr_fields.entries@), fields.entries@.len() + 1, 0nat,
    {
        let ghost efs = expr_fields_view(expr_fields.entries@);
        let ghost tfs = type_fields_view(fields.entries@);
        proof {
            lemma_expr_fields_view(expr_fields.entries@);
            lemma_type_fields_view(fields.entries@);
        }
        let mut k: usize = 0;
        while k < expr_fields.entries.len()
            invariant
                k <= expr_fields.entries@.len(),
                forall|j: int| 0 <= j < k ==> has_key(tfs, #[trigger] efs[j].0),
            decreases expr_fields.entries.len() - k,
        {
            let name = expr_fields.entries[k].0.as_str();
            if !fields.contains_key(name) {
                proof {
                    assert forall|q: int| 0 <= q < tfs.len() implies tfs[q].0 != efs[k as int].0 by {
                        assert(tfs[q].0 == fields.entries@[q].0@);
                    }
                }
                return Err(Error::with_code(
                    ErrorCode::RecordUnknownField,
                    concat3("unknown field `", name, "`").as_str(),
                ));
            }
            proof {
                let q = choose|q: int| 0 <= q < fields.entries@.len() && #[trigger] fields.entries@[q].0@ == name@;
                assert(tfs[q].0 == efs[k as int].0);
            }
            k = k + 1;
        }
        assert(!has_unknown_field(efs, tfs));
        let mut out: Vec<(String, CoreExpr)> = Vec::new();
        let mut i: usize = 0;
        assert(tfs.skip(0) =~= tfs);
        while i < fields.entries.len()
            invariant
                i <= fields.entries@.len(),
                tfs.len() == fields.entries@.len(),
                reelab_fields_spec(efs, tfs) == match reelab_fields_spec(efs, tfs.skip(i as int)) {
                    Ok(rest) => Ok(expr_fields_view(out@) + rest),
                    Err(c) => Err::<Seq<(Seq<char>, SpecExpr)>, ErrorCode>(c),
                },
            decreases fields.entries.len() - i,
        {
            let name = &fields.entries[i].0;
            let ty = &fields.entries[i].1;
            let ghost sub = tfs.skip(i as int);
            assert(sub[0] == tfs[i as int]);
            assert(sub.drop_first() =~= tfs.skip(i + 1));
            let ghost ees = expr_fields.entries@;
            let value = match expr_fields.get(name.as_str()) {
                Some(e) => {
                    let ghost found = *e;
                    proof {
                        let q = choose|q: int|
                            0 <= q < ees.len() && ees[q].0@ == name@ && ees[q].1 == *e
                                && forall|j: int| 0 <= j < q ==> ees[j].0@ != name@;
                        lemma_lookup_first(efs, name@, q);
                        assert(decreases_to!(expr_fields.entries => expr_fields.entries@[q]));
                    }
                    let copy = e.duplicate();
                    self.reelaborate(copy, ty)?
                },
                None => {
                    proof {
                        lemma_lookup_none(efs, name@);
                    }
                    if is_option_type(ty) {
                        CoreExpr::OptNone
                    } else {
                        return Err(Error::with_code(
                            ErrorCode::RecordMissingField,
                            concat3("missing field `", name.as_str(), "`").as_str(),
                        ));
                    }
                },
            };
            let ghost prev = out@;
            out.push((name.clone(), value));
            proof {
                lemma_expr_fields_view(prev);
                lemma_expr_fields_view(out@);
                let hd = (sub[0].0, value@);
                assert(expr_fields_view(out@) =~= expr_fields_view(prev) + seq![hd]);
                assert(reelab_fields_spec(efs, sub) == match reelab_fields_spec(efs, tfs.skip(i + 1)) {
                    Ok(rest) => Ok(seq![hd] + rest),
                    Err(c) => Err::<Seq<(Seq<char>, SpecExpr)>, ErrorCode>(c),
                });
                match reelab_fields_spec(efs, tfs.skip(i + 1)) {
                    Ok(rest) => {
                        assert(expr_fields_view(prev) + (seq![hd] + rest) =~= expr_fields_view(out@) + rest);
                    },
                    Err(_) => {},
                }
            }
            i = i + 1;
        }
        proof {
            assert(tfs.skip(i as int) =~= Seq::<(Seq<char>, SpecType)>::empty());
            assert(expr_fields_view(out@) + Seq::<(Seq<char>, SpecExpr)>::empty() =~= expr_fields_view(out@));
        }
        Ok(CoreExpr::Record(FieldMap { entries: out }))
    }

    /// Re-checks an elaborated expression against a new expected type.
    fn reelaborate(&mut self, expr: CoreExpr, expected: &CoreType) -> (r: Result<CoreExpr>)
        ensures
            agrees(r, reelab_spec(expr@, expected@)),
        decreases expr@, tsize(expected@), 1nat,
    {
        match expr {
            CoreExpr::Spanned(inner, span) => {
                let x = self.reelaborate(*inner, expected)?;
                Ok(CoreExpr::Spanned(Box::new(x), span))
            },
            expr => match expected {
                CoreType::Option(inner) => match expr {
                    CoreExpr::OptNone => Ok(CoreExpr::OptNone),
                    CoreExpr::OptSome(x) => Ok(CoreExpr::OptSome(Box::new(self.reelaborate(*x, inner)?))),
                    expr => Ok(CoreExpr::OptSome(Box::new(self.reelaborate(expr, inner)?))),
                },
                CoreType::Record(fields) => match expr {
                    CoreExpr::Record(expr_fields) => self.reelaborate_record(expr_fields, fields),
                    expr => Ok(expr),
                },
                CoreType::Refinement { base, .. } => self.reelaborate(expr, base),
                CoreType::LiteralUnion(_) => self.reelaborate(expr, &CoreType::String),
                _ => Ok(expr),
            },
        }
    }

    #[verifier::loop_isolation(false)]
    fn elaborate_unchecked_expr(&mut self, expr: CoreExpr) -> (r: Result<CoreExpr>)
        ensures
            agrees(r, unchecked_spec(expr@)),
        decreases expr@, 0nat, 0nat,
    {
        match expr {
            CoreExpr::Spanned(inner, span) => {
                Ok(CoreExpr::Spanned(Box::new(self.elaborate_unchecked_expr(*inner)?), span))
            },
            CoreExpr::OptSome(inner) => Ok(CoreExpr::OptSome(Box::new(self.elaborate_unchecked_expr(*inner)?))),
            CoreExpr::List(items) => {
                proof {
                    assert(decreases_to!(expr@ => expr_list_view(items@)));
                }
                Ok(CoreExpr::List(self.elaborate_unchecked_list(items)?))
            },
            CoreExpr::Record(fields) => {
                proof {
                    assert(decreases_to!(expr@ => expr_fields_view(fields.entries@)));
                }
                Ok(CoreExpr::Record(FieldMap { entries: self.elaborate_unchecked_fields(fields.entries)? }))
            },
            CoreExpr::Field(inner, name) => Ok(CoreExpr::Field(Box::new(self.elaborate_unchecked_expr(*inner)?), name)),
            CoreExpr::If(c, t, f) => {
                let c2 = self.elaborate_unchecked_expr(*c)?;
                let t2 = self.elaborate_unchecked_expr(*t)?;
                let f2 = self.elaborate_unchecked_expr(*f)?;
                Ok(CoreExpr::If(Box::new(c2), Box::new(t2), Box::new(f2)))
            },
            CoreExpr::Let(name, annotation, value, body) => {
                let v = match annotation {
                    Some(ty) => self.check_expr(*value, &ty)?.expr,
                    None => self.elaborate_unchecked_expr(*value)?,
                };
                let b = self.elaborate_unchecked_expr(*body)?;
                Ok(CoreExpr::Let(name, None, Box::new(v), Box::new(b)))
            },
            CoreExpr::Lambda(param, ty, body) => {
                Ok(CoreExpr::Lambda(param, ty, Box::new(self.elaborate_unchecked_expr(*body)?)))
            },
            CoreExpr::Apply(f, a) => {
                let f2 = self.elaborate_unchecked_expr(*f)?;
                let a2 = self.elaborate_unchecked_expr(*a)?;
                Ok(CoreExpr::Apply(Box::new(f2), Box::new(a2)))
            },
            CoreExpr::Ascribe(inner, ty) => Ok(self.check_expr(*inner, &ty)?.expr),
            CoreExpr::Unary(op, inner) => Ok(CoreExpr::Unary(op, Box::new(self.elaborate_unchecked_expr(*inner)?))),
            CoreExpr::Binary(op, l, r) => {
                let l2 = self.elaborate_unchecked_expr(*l)?;
                let r2 = self.elaborate_unchecked_expr(*r)?;
                Ok(CoreExpr::Binary(op, Box::new(l2), Box::new(r2)))
            },
            expr => Ok(expr),
        }
    }

    /// Elaborates list items without an expected type, in order.
    #[verifier::loop_isolation(false)]
    fn elaborate_unchecked_list(&mut self, items: Vec<CoreExpr>) -> (r: Result<Vec<CoreExpr>>)
        ensures
            match r {
                Ok(xs) => unchecked_list_spec(expr_list_view(items@)) == Ok::<Seq<SpecExpr>, ErrorCode>(expr_list_view(xs@)),
                Err(e) => unchecked_list_spec(expr_list_view(items@)) == Err::<Seq<SpecExpr>, ErrorCode>(e.code_spec()),
            },
        decreases expr_list_view(items@), 0nat, 0nat,
    {
        let ghost iv = expr_list_view(items@);
        proof {
            lemma_expr_list_view(items@);
            assert(iv.skip(0) =~= iv);
        }
        let mut out: Vec<CoreExpr> = Vec::new();
        let mut rest = items;
        let mut i: usize = 0;
        let n = rest.len();
        while rest.len() > 0
            invariant
                i + rest@.len() == n,
                n == iv.len(),
                forall|j: int| 0 <= j < rest@.len() ==> #[trigger] expr_view(rest@[j]) == iv[i + j],
                unchecked_list_spec(iv) == match unchecked_list_spec(iv.skip(i as int)) {
                    Ok(xs) => Ok(expr_list_view(out@) + xs),
                    Err(c) => Err::<Seq<SpecExpr>, ErrorCode>(c),
                },
            decreases rest.len(),
        {
            let ghost before = rest@;
            let item = rest.remove(0);
            assert(forall|j: int| 0 <= j < rest@.len() ==> rest@[j] == before[j + 1]);
            let ghost sub = iv.skip(i as int);
            assert(expr_view(before[0]) == iv[i + 0]);
            assert(sub[0] == iv[i as int]);
            assert(sub.drop_first() =~= iv.skip(i + 1));
            proof {
                assert(decreases_to!(iv => iv[i as int]));
            }
            let x = self.elaborate_unchecked_expr(item)?;
            let ghost prev = out@;
            out.push(x);
            proof {
                lemma_expr_list_view(prev);
                lemma_expr_list_view(out@);
                assert(expr_list_view(out@) =~= expr_list_view(prev) + seq![x@]);
                assert(unchecked_list_spec(sub) == match unchecked_list_spec(iv.skip(i + 1)) {
                    Ok(xs) => Ok(seq![x@] + xs),
                    Err(c) => Err::<Seq<SpecExpr>, ErrorCode>(c),
                });
                match unchecked_list_spec(iv.skip(i + 1)) {
                    Ok(xs) => {
                        assert(expr_list_view(prev) + (seq![x@] + xs) =~= expr_list_view(out@) + xs);
                    },
                    Err(_) => {},
                }
            }
            i = i + 1;
        }
        proof {
            assert(iv.skip(i as int) =~= Seq::<SpecExpr>::empty());
            assert(expr_list_view(out@) + Seq::<SpecExpr>::empty() =~= expr_list_view(out@));
        }
        Ok(out)
    }

    /// Elaborates record field values without an expected type, in order.
    #[verifier::loop_isolation(false)]
    fn elaborate_unchecked_fields(&mut self, entries: Vec<(String, CoreExpr)>) -> (r: Result<Vec<(String, CoreExpr)>>)
        ensures
            match r {
                Ok(xs) => unchecked_fields_spec(expr_fields_view(entries@)) == Ok::<Seq<(Seq<char>, SpecExpr)>, ErrorCode>(expr_fields_view(xs@)),
                Err(e) => unchecked_fields_spec(expr_fields_view(entries@)) == Err::<Seq<(Seq<char>, SpecExpr)>, ErrorCode>(e.code_spec()),
            },
        decreases expr_fields_view(entries@), 0nat, 0nat,
    {
        let ghost fv = expr_fields_view(entries@);
        proof {
            lemma_expr_fields_view(entries@);
            assert(fv.skip(0) =~= fv);
        }
        let mut out: Vec<(String, CoreExpr)> = Vec::new();
        let mut rest = entries;
        let mut i: usize = 0;
        let n = rest.len();
        while rest.len() > 0
            invariant
                i + rest@.len() == n,
                n == fv.len(),
                forall|j: int| 0 <= j < rest@.len() ==> (#[trigger] rest@[j]).0@ == fv[i + j].0 && expr_view(rest@[j].1) == fv[i + j].1,
                unchecked_fields_spec(fv) == match unchecked_fields_spec(fv.skip(i as int)) {
                    Ok(xs) => Ok(expr_fields_view(out@) + xs),
                    Err(c) => Err::<Seq<(Seq<char>, SpecExpr)>, ErrorCode>(c),
                },
            decreases rest.len(),
        {
            let ghost before = rest@;
            let entry = rest.remove(0);
            assert(forall|j: int| 0 <= j < rest@.len() ==> rest@[j] == before[j + 1]);
            let ghost sub = fv.skip(i as int);
            assert(before[0].0@ == fv[i + 0].0);
            assert(sub[0] == fv[i as int]);
            assert(sub.drop_first() =~= fv.skip(i + 1));
            proof {
                assert(decreases_to!(fv => fv[i as int]));
            }
            let x = self.elaborate_unchecked_expr(entry.1)?;
            let ghost prev = out@;
            out.push((entry.0, x));
            proof {
                lemma_expr_fields_view(prev);
                lemma_expr_fields_view(out@);
                let hd = (sub[0].0, x@);
                assert(expr_fields_view(out@) =~= expr_fields_view(prev) + seq![hd]);
                assert(unchecked_fields_spec(sub) == match unchecked_fields_spec(fv.skip(i + 1)) {
                    Ok(xs) => Ok(seq![hd] + xs),
                    Err(c) => Err::<Seq<(Seq<char>, SpecExpr)>, ErrorCode>(c),
                });
                match unchecked_fields_spec(fv.skip(i + 1)) {
                    Ok(xs) => {
                        assert(expr_fields_view(prev) + (seq![hd] + xs) =~= expr_fields_view(out@) + xs);
                    },
                    Err(_) => {},
                }
            }
            i = i + 1;
        }
        proof {
            assert(fv.skip(i as int) =~= Seq::<(Seq<char>, SpecExpr)>::empty());
            assert(expr_fields_view(out@) + Seq::<(Seq<char>, SpecExpr)>::empty() =~= expr_fields_view(out@));
        }
        Ok(out)
    }
}

/// What module elaboration needs of an expression typer: checking against an
/// expected type, elaboration without one, and synthesis.
pub trait CoreExprTyper {
    fn prepare_expr(&mut self, expr: CoreExpr) -> (r: Result<CoreExpr>)
        ensures
            agrees(r, unchecked_spec(expr@)),
    ;

    fn check_expr(&mut self, expr: CoreExpr, expected: &CoreType) -> (r: Result<TypedCoreExpr>)
        ensures
            match r {
                Ok(typed) => elab_spec(expr@, expected@) == Ok::<SpecExpr, ErrorCode>(typed.expr@) && typed.ty@ == expected@,
                Err(e) => elab_spec(expr@, expected@) == Err::<SpecExpr, ErrorCode>(e.code_spec()),
            },
    ;

    fn synthesize_expr(&mut self, expr: CoreExpr, values: &ValueTypeScope) -> (r: Result<ElaboratedExpr>)
        ensures
            match r {
                Ok(ElaboratedExpr::Checked(t)) => synth_spec(expr@, values.spec_globals(), Seq::empty())
                    == Ok::<Option<(SpecExpr, SpecType)>, ErrorCode>(Some((t.expr@, t.ty@))),
                Err(e) => match synth_spec(expr@, values.spec_globals(), Seq::empty()) {
                    Err(c) => c == e.code_spec(),
                    Ok(None) => e.code_spec() == unsynth_code(expr@),
                    Ok(Some(_)) => false,
                },
            },
    ;
}

impl CoreExprTyper for CoreElaborator {
    fn prepare_expr(&mut self, expr: CoreExpr) -> (r: Result<CoreExpr>) {
        CoreElaborator::prepare_expr(self, expr)
    }

    fn check_expr(&mut self, expr: CoreExpr, expected: &CoreType) -> (r: Result<TypedCoreExpr>) {
        CoreElaborator::check_expr(self, expr, expected)
    }

    fn synthesize_expr(&mut self, expr: CoreExpr, values: &ValueTypeScope) -> (r: Result<ElaboratedExpr>) {
        Ok(ElaboratedExpr::Checked(self.synthesize_expr_type(expr, values)?))
    }
}

} // verus!
