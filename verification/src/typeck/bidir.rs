//! Checking values and expressions against declared types while they are
//! evaluated: options are filled in, omitted optional record fields become
//! `none`, and refinement predicates are validated.

use vstd::prelude::*;

use crate::core_lang::ast::{
    expr_fields_view, lemma_expr_fields_view, lemma_type_fields_view, type_fields_view, CoreExpr,
    CoreType, SpecExpr, SpecType,
};
use crate::core_lang::types::CoreTypeEnv;
use crate::error::{Error, ErrorCode, Result};
use crate::eval::interp::{eval_coded, eval_spec, vagrees, CoreEvaluator, DEFAULT_DEPTH};
use crate::eval::value::{lemma_value_fields_view, value_fields_view, Env, SpecEnv, SpecValue, Value};
use crate::fields::{lemma_lookup_first, lemma_lookup_none, lookup, FieldMap};
use crate::refine::validate::{validation_outcome, CoreRefinementValidator};
use crate::text::{concat, concat3};
use crate::typeck::elaborate::CodeResult;
use crate::typeck::unify::{
    expand_spec, expand_type, matches_expanded, matches_spec, type_label, type_name_spec,
    value_name, value_name_spec,
};

verus! {

broadcast use vstd::std_specs::vec::group_vec_axioms;

/// Some entry of `vs` has a name that `fields` lacks.
pub open spec fn unknown_field<M, N>(vs: Seq<(Seq<char>, M)>, fields: Seq<(Seq<char>, N)>) -> bool {
    exists|j: int| 0 <= j < vs.len() && lookup(fields, #[trigger] vs[j].0) is None
}

/// The index of the first entry named `k`.
pub open spec fn key_index<M>(s: Seq<(Seq<char>, M)>, k: Seq<char>) -> Option<nat>
    decreases s.len(),
{
    if s.len() == 0 {
        None
    } else if s[0].0 == k {
        Some(0)
    } else {
        match key_index(s.drop_first(), k) {
            Some(j) => Some(j + 1),
            None => None,
        }
    }
}

proof fn lemma_key_index_first<M>(s: Seq<(Seq<char>, M)>, k: Seq<char>, i: int)
    requires
        0 <= i < s.len(),
        s[i].0 == k,
        forall|j: int| 0 <= j < i ==> s[j].0 != k,
    ensures
        key_index(s, k) == Some(i as nat),
    decreases i,
{
    if i > 0 {
        let t = s.drop_first();
        assert forall|j: int| 0 <= j < i - 1 implies t[j].0 != k by {
            assert(t[j] == s[j + 1]);
        }
        lemma_key_index_first(t, k, i - 1);
    }
}

proof fn lemma_key_index_none<M>(s: Seq<(Seq<char>, M)>, k: Seq<char>)
    requires
        forall|j: int| 0 <= j < s.len() ==> s[j].0 != k,
    ensures
        key_index(s, k) is None,
    decreases s.len(),
{
    if s.len() > 0 {
        let t = s.drop_first();
        assert forall|j: int| 0 <= j < t.len() implies t[j].0 != k by {
            assert(t[j] == s[j + 1]);
        }
        lemma_key_index_none(t, k);
    }
}

/// Checking a value against an expanded type: a refinement checks its base
/// and then its predicate; a record may not have fields the type lacks, and
/// fields the type declares optional may be missing (they become `none`);
/// an option type wraps a value that is not already an option; any other
/// type must be matched by shape.
pub open spec fn check_value_spec(v: SpecValue, t: SpecType, env: SpecEnv) -> CodeResult<SpecValue>
    decreases t, 0nat,
{
    match t {
        SpecType::Refinement { binder, base, pred } => match check_value_spec(v, *base, env) {
            Ok(w) => validation_outcome(*pred, env, Some(binder), w, ErrorCode::RefineFailed),
            Err(c) => Err(c),
        },
        SpecType::Record(fields) => match v {
            SpecValue::Record(vs) => if unknown_field(vs, fields) {
                Err(ErrorCode::RecordUnknownField)
            } else {
                match check_value_fields_spec(vs, fields, env) {
                    Ok(out) => Ok(SpecValue::Record(out)),
                    Err(c) => Err(c),
                }
            },
            _ => Err(ErrorCode::TypeMismatch),
        },
        SpecType::Option(inner) => match v {
            SpecValue::OptNone => Ok(SpecValue::OptNone),
            SpecValue::OptSome(x) => match check_value_spec(*x, *inner, env) {
                Ok(y) => Ok(SpecValue::OptSome(Box::new(y))),
                Err(c) => Err(c),
            },
            _ => match check_value_spec(v, *inner, env) {
                Ok(y) => Ok(SpecValue::OptSome(Box::new(y))),
                Err(c) => Err(c),
            },
        },
        _ => if matches_spec(v, t) {
            Ok(v)
        } else {
            Err(ErrorCode::TypeMismatch)
        },
    }
}

/// The fields of a record value checked in the order the type lists them.
pub open spec fn check_value_fields_spec(vs: Seq<(Seq<char>, SpecValue)>, fields: Seq<(Seq<char>, SpecType)>, env: SpecEnv) -> CodeResult<Seq<(Seq<char>, SpecValue)>>
    decreases fields, 0nat,
{
    if fields.len() == 0 {
        Ok(Seq::empty())
    } else {
        let head = match lookup(vs, fields[0].0) {
            Some(x) => check_value_spec(x, fields[0].1, env),
            None => if fields[0].1 is Option {
                Ok(SpecValue::OptNone)
            } else {
                Err(ErrorCode::RecordMissingField)
            },
        };
        match head {
            Err(c) => Err(c),
            Ok(h) => match check_value_fields_spec(vs, fields.drop_first(), env) {
                Err(c) => Err(c),
                Ok(rest) => Ok(seq![(fields[0].0, h)] + rest),
            },
        }
    }
}

/// Checking an expression against an expanded type. Literal `none` and
/// `some` forms and record literals are checked part by part, so that a
/// field's expected type reaches its expression; anything else is
/// evaluated and its value checked.
pub open spec fn check_expr_spec(e: SpecExpr, t: SpecType, env: SpecEnv) -> CodeResult<SpecValue>
    decreases e, t,
{
    match e {
        SpecExpr::Spanned(inner, _) => check_expr_spec(*inner, t, env),
        _ => match t {
            SpecType::Option(inner) => match e {
                SpecExpr::OptNone => Ok(SpecValue::OptNone),
                SpecExpr::OptSome(x) => match check_expr_spec(*x, *inner, env) {
                    Ok(v) => Ok(SpecValue::OptSome(Box::new(v))),
                    Err(c) => Err(c),
                },
                _ => match eval_spec(e, env, DEFAULT_DEPTH as nat) {
                    Err(c) => Err(c.0),
                    Ok(v) => if matches_spec(v, t) {
                        Ok(v)
                    } else {
                        match check_value_spec(v, *inner, env) {
                            Ok(y) => Ok(SpecValue::OptSome(Box::new(y))),
                            Err(c) => Err(c),
                        }
                    },
                },
            },
            SpecType::Record(fields) => match e {
                SpecExpr::Record(efs) => if unknown_field(efs, fields) {
                    Err(ErrorCode::RecordUnknownField)
                } else {
                    match check_expr_fields_spec(efs, fields, env) {
                        Ok(out) => Ok(SpecValue::Record(out)),
                        Err(c) => Err(c),
                    }
                },
                _ => match eval_spec(e, env, DEFAULT_DEPTH as nat) {
                    Err(c) => Err(c.0),
                    Ok(v) => check_value_spec(v, t, env),
                },
            },
            SpecType::Refinement { binder, base, pred } => match check_expr_spec(e, *base, env) {
                Ok(v) => validation_outcome(*pred, env, Some(binder), v, ErrorCode::RefineFailed),
                Err(c) => Err(c),
            },
            _ => match eval_spec(e, env, DEFAULT_DEPTH as nat) {
                Err(c) => Err(c.0),
                Ok(v) => check_value_spec(v, t, env),
            },
        },
    }
}

/// The fields of a record literal checked in the order the type lists them.
pub open spec fn check_expr_fields_spec(efs: Seq<(Seq<char>, SpecExpr)>, fields: Seq<(Seq<char>, SpecType)>, env: SpecEnv) -> CodeResult<Seq<(Seq<char>, SpecValue)>>
    decreases efs, fields,
{
    if fields.len() == 0 {
        Ok(Seq::empty())
    } else {
        let head = match key_index(efs, fields[0].0) {
            Some(j) => if j < efs.len() {
                check_expr_spec(efs[j as int].1, fields[0].1, env)
            } else {
                Err(ErrorCode::Reconf)
            },
            None => if fields[0].1 is Option {
                Ok(SpecValue::OptNone)
            } else {
                Err(ErrorCode::RecordMissingField)
            },
        };
        match head {
            Err(c) => Err(c),
            Ok(h) => match check_expr_fields_spec(efs, fields.drop_first(), env) {
                Err(c) => Err(c),
                Ok(rest) => Ok(seq![(fields[0].0, h)] + rest),
            },
        }
    }
}

/// Evaluating an expression with no expected type: `none` and the empty
/// list cannot be typed without one.
pub open spec fn synth_value_spec(e: SpecExpr, env: SpecEnv) -> CodeResult<SpecValue>
    decreases e,
{
    match e {
        SpecExpr::Spanned(inner, _) => synth_value_spec(*inner, env),
        SpecExpr::OptNone => Err(ErrorCode::TypeNoneNeedsExpected),
        SpecExpr::List(items) => if items.len() == 0 {
            Err(ErrorCode::Reconf)
        } else {
            eval_coded(e, env, DEFAULT_DEPTH as nat)
        },
        _ => eval_coded(e, env, DEFAULT_DEPTH as nat),
    }
}

/// An executable result agrees with a model result.
pub open spec fn agrees(r: Result<Value>, s: CodeResult<SpecValue>) -> bool {
    match r {
        Ok(v) => s == Ok::<SpecValue, ErrorCode>(v@),
        Err(e) => s == Err::<SpecValue, ErrorCode>(e.code_spec()),
    }
}

/// The result of checking against a type that must first be expanded.
pub open spec fn after_expand(expanded: CodeResult<SpecType>, check: spec_fn(SpecType) -> CodeResult<SpecValue>) -> CodeResult<SpecValue> {
    match expanded {
        Ok(t) => check(t),
        Err(c) => Err(c),
    }
}

fn mismatch(expected: &CoreType, value: &Value) -> (e: Error)
    ensures
        e.code_spec() == ErrorCode::TypeMismatch,
{
    let head = concat3("type mismatch: expected ", type_label(expected), ", got ");
    Error::with_code(ErrorCode::TypeMismatch, concat(head.as_str(), value_name(value)).as_str())
}

/// Validates a value against a refinement predicate in `env`.
fn refine(value: Value, binder: &String, pred: &CoreExpr, env: &Env) -> (r: Result<Value>)
    ensures
        agrees(r, validation_outcome(pred@, env@, Some(binder@), value@, ErrorCode::RefineFailed)),
{
    let validator = CoreRefinementValidator::new(env.duplicate());
    validator.validate(value, binder.as_str(), pred)
}

/// Checks `value` against `expected`, whose aliases are expanded first.
pub fn check_value_against(value: Value, expected: &CoreType, env: &Env, aliases: &CoreTypeEnv) -> (r: Result<Value>)
    ensures
        agrees(r, after_expand(expand_spec(*aliases, expected@, Seq::empty()), |t: SpecType| check_value_spec(value@, t, env@))),
{
    let t = expand_type(expected, aliases)?;
    check_value_expanded(value, &t, env)
}

/// Checks `value` against `ty`, taken as already expanded.
#[verifier::loop_isolation(false)]
pub fn check_value_expanded(value: Value, ty: &CoreType, env: &Env) -> (r: Result<Value>)
    ensures
        agrees(r, check_value_spec(value@, ty@, env@)),
    decreases ty,
{
    match ty {
        CoreType::Refinement { binder, base, pred } => {
            let checked = check_value_expanded(value, base, env)?;
            refine(checked, binder, pred, env)
        },
        CoreType::Record(fields) => {
            let values = match value {
                Value::Record(values) => values,
                _ => {
                    return Err(Error::with_code(ErrorCode::TypeMismatch, "type mismatch: expected record"));
                },
            };
            let ghost vs = value_fields_view(values.entries@);
            let ghost fv = type_fields_view(fields.entries@);
            proof {
                lemma_value_fields_view(values.entries@);
                lemma_type_fields_view(fields.entries@);
            }
            let mut k: usize = 0;
            while k < values.entries.len()
                invariant
                    k <= values.entries@.len(),
                    vs.len() == values.entries@.len(),
                    fv.len() == fields.entries@.len(),
                    forall|j: int| 0 <= j < k ==> lookup(fv, #[trigger] vs[j].0) is Some,
                decreases values.entries.len() - k,
            {
                match fields.position(values.entries[k].0.as_str()) {
                    Some(p) => {
                        proof {
                            lemma_lookup_first(fv, vs[k as int].0, p as int);
                        }
                    },
                    None => {
                        proof {
                            lemma_lookup_none(fv, vs[k as int].0);
                            assert(unknown_field(vs, fv));
                        }
                        return Err(Error::with_code(
                            ErrorCode::RecordUnknownField,
                            concat3("unknown field `", values.entries[k].0.as_str(), "`").as_str(),
                        ));
                    },
                }
                k = k + 1;
            }
            assert(!unknown_field(vs, fv));
            proof {
                assert(fv.skip(0) =~= fv);
            }
            let mut out: Vec<(String, Value)> = Vec::new();
            let mut i: usize = 0;
            while i < fields.entries.len()
                invariant
                    i <= fields.entries@.len(),
                    fv.len() == fields.entries@.len(),
                    vs.len() == values.entries@.len(),
                    out@.len() == i,
                    check_value_fields_spec(vs, fv, env@) == match check_value_fields_spec(vs, fv.skip(i as int), env@) {
                        Ok(rest) => Ok::<Seq<(Seq<char>, SpecValue)>, ErrorCode>(value_fields_view(out@) + rest),
                        Err(c) => Err(c),
                    },
                decreases fields.entries.len() - i,
            {
                proof {
                    assert(decreases_to!(fields.entries => fields.entries@[i as int]));
                    assert(fv.skip(i as int).drop_first() =~= fv.skip(i + 1));
                    assert(fv.skip(i as int)[0] == fv[i as int]);
                }
                let name = &fields.entries[i].0;
                let field_ty = &fields.entries[i].1;
                let h = match values.position(name.as_str()) {
                    Some(p) => {
                        proof {
                            lemma_lookup_first(vs, fv[i as int].0, p as int);
                        }
                        check_value_expanded(values.entries[p].1.duplicate(), field_ty, env)?
                    },
                    None => {
                        proof {
                            lemma_lookup_none(vs, fv[i as int].0);
                        }
                        match field_ty {
                            CoreType::Option(_) => Value::OptNone,
                            _ => {
                                return Err(Error::with_code(
                                    ErrorCode::RecordMissingField,
                                    concat3("missing field `", name.as_str(), "`").as_str(),
                                ));
                            },
                        }
                    },
                };
                let ghost before = out@;
                out.push((name.clone(), h));
                proof {
                    lemma_value_fields_view(before);
                    lemma_value_fields_view(out@);
                    assert(value_fields_view(out@) =~= value_fields_view(before).push((fv[i as int].0, h@)));
                    match check_value_fields_spec(vs, fv.skip(i + 1), env@) {
                        Ok(rest) => {
                            assert(value_fields_view(before) + (seq![(fv[i as int].0, h@)] + rest) =~= value_fields_view(out@) + rest);
                        },
                        Err(_) => {},
                    }
                }
                i = i + 1;
            }
            proof {
                assert(fv.skip(i as int) =~= Seq::<(Seq<char>, SpecType)>::empty());
                assert(value_fields_view(out@) + Seq::<(Seq<char>, SpecValue)>::empty() =~= value_fields_view(out@));
            }
            Ok(Value::Record(FieldMap { entries: out }))
        },
        CoreType::Option(inner) => match value {
            Value::OptNone => Ok(Value::OptNone),
            Value::OptSome(x) => {
                let y = check_value_expanded(*x, inner, env)?;
                Ok(Value::OptSome(Box::new(y)))
            },
            other => {
                let y = check_value_expanded(other, inner, env)?;
                Ok(Value::OptSome(Box::new(y)))
            },
        },
        _ => {
            if matches_expanded(&value, ty) {
                Ok(value)
            } else {
                Err(mismatch(ty, &value))
            }
        },
    }
}

/// Evaluates `expr` and checks it against `expected`, whose aliases are
/// expanded first.
pub fn check_expr(expr: &CoreExpr, expected: &CoreType, env: &Env, aliases: &CoreTypeEnv) -> (r: Result<Value>)
    ensures
        agrees(r, after_expand(expand_spec(*aliases, expected@, Seq::empty()), |t: SpecType| check_expr_spec(expr@, t, env@))),
{
    let t = expand_type(expected, aliases)?;
    check_expr_expanded(expr, &t, env)
}

fn evaluate(expr: &CoreExpr, env: &Env) -> (r: Result<Value>)
    ensures
        vagrees(r, eval_spec(expr@, env@, DEFAULT_DEPTH as nat)),
{
    let mut evaluator = CoreEvaluator::new();
    evaluator.eval(expr, env)
}

/// Evaluates `expr` and checks it against `ty`, taken as already expanded.
#[verifier::loop_isolation(false)]
pub fn check_expr_expanded(expr: &CoreExpr, ty: &CoreType, env: &Env) -> (r: Result<Value>)
    ensures
        agrees(r, check_expr_spec(expr@, ty@, env@)),
    decreases expr, ty,
{
    if let CoreExpr::Spanned(inner, _) = expr {
        return check_expr_expanded(inner, ty, env);
    }
    match ty {
        CoreType::Option(inner) => match expr {
            CoreExpr::OptNone => Ok(Value::OptNone),
            CoreExpr::OptSome(x) => {
                let v = check_expr_expanded(x, inner, env)?;
                Ok(Value::OptSome(Box::new(v)))
            },
            _ => {
                let v = evaluate(expr, env)?;
                if matches_expanded(&v, ty) {
                    Ok(v)
                } else {
                    let y = check_value_expanded(v, inner, env)?;
                    Ok(Value::OptSome(Box::new(y)))
                }
            },
        },
        CoreType::Record(fields) => match expr {
            CoreExpr::Record(efs) => {
                let ghost ev = expr_fields_view(efs.entries@);
                let ghost fv = type_fields_view(fields.entries@);
                proof {
                    lemma_expr_fields_view(efs.entries@);
                    lemma_type_fields_view(fields.entries@);
                }
                let mut k: usize = 0;
                while k < efs.entries.len()
                    invariant
                        k <= efs.entries@.len(),
                        ev.len() == efs.entries@.len(),
                        fv.len() == fields.entries@.len(),
                        forall|j: int| 0 <= j < k ==> lookup(fv, #[trigger] ev[j].0) is Some,
                    decreases efs.entries.len() - k,
                {
                    match fields.position(efs.entries[k].0.as_str()) {
                        Some(p) => {
                            proof {
                                lemma_lookup_first(fv, ev[k as int].0, p as int);
                            }
                        },
                        None => {
                            proof {
                                lemma_lookup_none(fv, ev[k as int].0);
                                assert(unknown_field(ev, fv));
                            }
                            return Err(Error::with_code(
                                ErrorCode::RecordUnknownField,
                                concat3("unknown field `", efs.entries[k].0.as_str(), "`").as_str(),
                            ));
                        },
                    }
                    k = k + 1;
                }
                assert(!unknown_field(ev, fv));
                proof {
                    assert(fv.skip(0) =~= fv);
                }
                let mut out: Vec<(String, Value)> = Vec::new();
                let mut i: usize = 0;
                while i < fields.entries.len()
                    invariant
                        i <= fields.entries@.len(),
                        fv.len() == fields.entries@.len(),
                        ev.len() == efs.entries@.len(),
                        out@.len() == i,
                        check_expr_fields_spec(ev, fv, env@) == match check_expr_fields_spec(ev, fv.skip(i as int), env@) {
                            Ok(rest) => Ok::<Seq<(Seq<char>, SpecValue)>, ErrorCode>(value_fields_view(out@) + rest),
                            Err(c) => Err(c),
                        },
                    decreases fields.entries.len() - i,
                {
                    proof {
                        assert(decreases_to!(fields.entries => fields.entries@[i as int]));
                        assert(fv.skip(i as int).drop_first() =~= fv.skip(i + 1));
                        assert(fv.skip(i as int)[0] == fv[i as int]);
                    }
                    let name = &fields.entries[i].0;
                    let field_ty = &fields.entries[i].1;
                    let h = match efs.position(name.as_str()) {
                        Some(p) => {
                            proof {
                                lemma_key_index_first(ev, fv[i as int].0, p as int);
                                assert(decreases_to!(efs.entries => efs.entries@[p as int]));
                            }
                            check_expr_expanded(&efs.entries[p].1, field_ty, env)?
                        },
                        None => {
                            proof {
                                lemma_key_index_none(ev, fv[i as int].0);
                            }
                            match field_ty {
                                CoreType::Option(_) => Value::OptNone,
                                _ => {
                                    return Err(Error::with_code(
                                        ErrorCode::RecordMissingField,
                                        concat3("missing field `", name.as_str(), "`").as_str(),
                                    ));
                                },
                            }
                        },
                    };
                    let ghost before = out@;
                    out.push((name.clone(), h));
                    proof {
                        lemma_value_fields_view(before);
                        lemma_value_fields_view(out@);
                        assert(value_fields_view(out@) =~= value_fields_view(before).push((fv[i as int].0, h@)));
                        match check_expr_fields_spec(ev, fv.skip(i + 1), env@) {
                            Ok(rest) => {
                                assert(value_fields_view(before) + (seq![(fv[i as int].0, h@)] + rest) =~= value_fields_view(out@) + rest);
                            },
                            Err(_) => {},
                        }
                    }
                    i = i + 1;
                }
                proof {
                    assert(fv.skip(i as int) =~= Seq::<(Seq<char>, SpecType)>::empty());
                    assert(value_fields_view(out@) + Seq::<(Seq<char>, SpecValue)>::empty() =~= value_fields_view(out@));
                }
                Ok(Value::Record(FieldMap { entries: out }))
            },
            _ => {
                let v = evaluate(expr, env)?;
                check_value_expanded(v, ty, env)
            },
        },
        CoreType::Refinement { binder, base, pred } => {
            let v = check_expr_expanded(expr, base, env)?;
            refine(v, binder, pred, env)
        },
        _ => {
            let v = evaluate(expr, env)?;
            check_value_expanded(v, ty, env)
        },
    }
}

/// Evaluates `expr` where no type is expected.
pub fn synth_expr(expr: &CoreExpr, env: &Env, aliases: &CoreTypeEnv) -> (r: Result<Value>)
    ensures
        agrees(r, synth_value_spec(expr@, env@)),
    decreases expr,
{
    if let CoreExpr::Spanned(inner, _) = expr {
        return synth_expr(inner, env, aliases);
    }
    match expr {
        CoreExpr::OptNone => {
            let e = Error::with_code(ErrorCode::TypeNoneNeedsExpected, "`none` requires an expected option type");
            Err(e)
        },
        CoreExpr::List(items) => {
            proof {
                crate::core_lang::ast::lemma_expr_list_view(items@);
            }
            if items.len() == 0 {
                Err(Error::new("empty lists require an expected list type"))
            } else {
                evaluate(expr, env)
            }
        },
        _ => evaluate(expr, env),
    }
}

} // verus!
