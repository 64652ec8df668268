//! Preparation of refinement predicates for evaluation.

use vstd::prelude::*;

use crate::core_lang::ast::{
    expr_fields_view, expr_list_view, lemma_expr_fields_view, lemma_expr_list_view, CoreExpr,
    LocalRef, SpecExpr,
};
use crate::error::{ByteRange, Error, ErrorCode, Result};
use crate::eval::interp::{eval_spec, CoreEvaluator, DEFAULT_DEPTH};
use crate::eval::value::{env_bind, Env, SpecEnv, SpecValue, Value};
use crate::fields::FieldMap;
use crate::text::str_eq;

verus! {

broadcast use vstd::std_specs::vec::group_vec_axioms;

/// The deepest nesting of binders (`let` and lambdas) in an expression.
pub open spec fn binder_depth(e: SpecExpr) -> nat
    decreases e,
{
    match e {
        SpecExpr::Spanned(x, _) => binder_depth(*x),
        SpecExpr::OptSome(x) => binder_depth(*x),
        SpecExpr::List(items) => list_binder_depth(items),
        SpecExpr::Record(fs) => fields_binder_depth(fs),
        SpecExpr::Field(x, _) => binder_depth(*x),
        SpecExpr::If(c, t, f) => max3(binder_depth(*c), binder_depth(*t), binder_depth(*f)),
        SpecExpr::Let(_, _, v, b) => max2(binder_depth(*v), 1 + binder_depth(*b)),
        SpecExpr::Lambda(_, _, b) => 1 + binder_depth(*b),
        SpecExpr::Apply(f, a) => max2(binder_depth(*f), binder_depth(*a)),
        SpecExpr::Ascribe(x, _) => binder_depth(*x),
        SpecExpr::Unary(_, x) => binder_depth(*x),
        SpecExpr::Binary(_, l, r) => max2(binder_depth(*l), binder_depth(*r)),
        _ => 0,
    }
}

pub open spec fn max2(a: nat, b: nat) -> nat {
    if a >= b { a } else { b }
}

pub open spec fn max3(a: nat, b: nat, c: nat) -> nat {
    max2(a, max2(b, c))
}

pub open spec fn list_binder_depth(items: Seq<SpecExpr>) -> nat
    decreases items,
{
    if items.len() == 0 {
        0
    } else {
        max2(binder_depth(items[0]), list_binder_depth(items.drop_first()))
    }
}

pub open spec fn fields_binder_depth(fs: Seq<(Seq<char>, SpecExpr)>) -> nat
    decreases fs,
{
    if fs.len() == 0 {
        0
    } else {
        max2(binder_depth(fs[0].1), fields_binder_depth(fs.drop_first()))
    }
}

/// The predicate with every free occurrence of `binder` replaced by the
/// local `depth` binders out: under each binder the depth grows by one, and
/// a binder of the same name hides the occurrences in its body.
pub open spec fn prepare_spec(e: SpecExpr, binder: Seq<char>, depth: nat) -> SpecExpr
    decreases e,
{
    match e {
        SpecExpr::Spanned(x, span) => SpecExpr::Spanned(Box::new(prepare_spec(*x, binder, depth)), span),
        SpecExpr::Var(name) => if name == binder {
            SpecExpr::Local(LocalRef(depth as usize))
        } else {
            e
        },
        SpecExpr::OptSome(x) => SpecExpr::OptSome(Box::new(prepare_spec(*x, binder, depth))),
        SpecExpr::List(items) => SpecExpr::List(prepare_list_spec(items, binder, depth)),
        SpecExpr::Record(fs) => SpecExpr::Record(prepare_fields_spec(fs, binder, depth)),
        SpecExpr::Field(x, name) => SpecExpr::Field(Box::new(prepare_spec(*x, binder, depth)), name),
        SpecExpr::If(c, t, f) => SpecExpr::If(
            Box::new(prepare_spec(*c, binder, depth)),
            Box::new(prepare_spec(*t, binder, depth)),
            Box::new(prepare_spec(*f, binder, depth)),
        ),
        SpecExpr::Let(name, ann, v, b) => SpecExpr::Let(
            name,
            ann,
            Box::new(prepare_spec(*v, binder, depth)),
            Box::new(if name == binder { *b } else { prepare_spec(*b, binder, depth + 1) }),
        ),
        SpecExpr::Lambda(param, ty, b) => SpecExpr::Lambda(
            param,
            ty,
            Box::new(if param == binder { *b } else { prepare_spec(*b, binder, depth + 1) }),
        ),
        SpecExpr::Apply(f, a) => SpecExpr::Apply(
            Box::new(prepare_spec(*f, binder, depth)),
            Box::new(prepare_spec(*a, binder, depth)),
        ),
        SpecExpr::Ascribe(x, ty) => SpecExpr::Ascribe(Box::new(prepare_spec(*x, binder, depth)), ty),
        SpecExpr::Unary(op, x) => SpecExpr::Unary(op, Box::new(prepare_spec(*x, binder, depth))),
        SpecExpr::Binary(op, l, r) => SpecExpr::Binary(
            op,
            Box::new(prepare_spec(*l, binder, depth)),
            Box::new(prepare_spec(*r, binder, depth)),
        ),
        _ => e,
    }
}

pub open spec fn prepare_list_spec(items: Seq<SpecExpr>, binder: Seq<char>, depth: nat) -> Seq<SpecExpr>
    decreases items,
{
    if items.len() == 0 {
        Seq::empty()
    } else {
        seq![prepare_spec(items[0], binder, depth)] + prepare_list_spec(items.drop_first(), binder, depth)
    }
}

pub open spec fn prepare_fields_spec(fs: Seq<(Seq<char>, SpecExpr)>, binder: Seq<char>, depth: nat) -> Seq<(Seq<char>, SpecExpr)>
    decreases fs,
{
    if fs.len() == 0 {
        Seq::empty()
    } else {
        seq![(fs[0].0, prepare_spec(fs[0].1, binder, depth))] + prepare_fields_spec(fs.drop_first(), binder, depth)
    }
}

proof fn lemma_prepare_list(items: Seq<SpecExpr>, binder: Seq<char>, depth: nat)
    ensures
        prepare_list_spec(items, binder, depth).len() == items.len(),
        forall|j: int| 0 <= j < items.len() ==> #[trigger] prepare_list_spec(items, binder, depth)[j] == prepare_spec(items[j], binder, depth),
        forall|j: int| 0 <= j < items.len() ==> binder_depth(#[trigger] items[j]) <= list_binder_depth(items),
    decreases items.len(),
{
    if items.len() > 0 {
        lemma_prepare_list(items.drop_first(), binder, depth);
        assert forall|j: int| 0 <= j < items.len() implies #[trigger] prepare_list_spec(items, binder, depth)[j] == prepare_spec(items[j], binder, depth) by {
            if j > 0 {
                assert(items.drop_first()[j - 1] == items[j]);
            }
        }
        assert forall|j: int| 0 <= j < items.len() implies binder_depth(#[trigger] items[j]) <= list_binder_depth(items) by {
            if j > 0 {
                assert(items.drop_first()[j - 1] == items[j]);
            }
        }
    }
}

proof fn lemma_prepare_fields(fs: Seq<(Seq<char>, SpecExpr)>, binder: Seq<char>, depth: nat)
    ensures
        prepare_fields_spec(fs, binder, depth).len() == fs.len(),
        forall|j: int| 0 <= j < fs.len() ==> #[trigger] prepare_fields_spec(fs, binder, depth)[j] == (fs[j].0, prepare_spec(fs[j].1, binder, depth)),
        forall|j: int| 0 <= j < fs.len() ==> binder_depth((#[trigger] fs[j]).1) <= fields_binder_depth(fs),
    decreases fs.len(),
{
    if fs.len() > 0 {
        lemma_prepare_fields(fs.drop_first(), binder, depth);
        assert forall|j: int| 0 <= j < fs.len() implies #[trigger] prepare_fields_spec(fs, binder, depth)[j] == (fs[j].0, prepare_spec(fs[j].1, binder, depth)) by {
            if j > 0 {
                assert(fs.drop_first()[j - 1] == fs[j]);
            }
        }
        assert forall|j: int| 0 <= j < fs.len() implies binder_depth((#[trigger] fs[j]).1) <= fields_binder_depth(fs) by {
            if j > 0 {
                assert(fs.drop_first()[j - 1] == fs[j]);
            }
        }
    }
}

/// A refinement predicate ready for evaluation.
pub struct CheckedRefinementPredicate {
    pred: CoreExpr,
}

impl CheckedRefinementPredicate {
    pub closed spec fn pred_spec(&self) -> SpecExpr {
        self.pred@
    }

    /// A predicate that is evaluated as written.
    pub fn new(pred: &CoreExpr) -> (p: CheckedRefinementPredicate)
        ensures
            p.pred_spec() == pred@,
    {
        CheckedRefinementPredicate { pred: pred.duplicate() }
    }

    /// A predicate that takes ownership of the expression.
    pub fn owned(pred: CoreExpr) -> (p: CheckedRefinementPredicate)
        ensures
            p.pred_spec() == pred@,
    {
        CheckedRefinementPredicate { pred }
    }

    /// The prepared expression.
    pub fn expr(&self) -> (e: &CoreExpr)
        ensures
            e@ == self.pred_spec(),
    {
        &self.pred
    }
}

/// Prepares predicates whose binder has the given name.
pub struct CheckedRefinementPredicateBuilder<'a> {
    binder: &'a str,
}

impl<'a> CheckedRefinementPredicateBuilder<'a> {
    pub closed spec fn binder_spec(&self) -> Seq<char> {
        self.binder@
    }

    pub fn new(binder: &'a str) -> (b: Self)
        ensures
            b.binder_spec() == binder@,
    {
        CheckedRefinementPredicateBuilder { binder }
    }

    /// The predicate with the binder turned into the innermost local.
    pub fn build(&self, pred: &CoreExpr) -> (p: CheckedRefinementPredicate)
        requires
            binder_depth(pred@) < usize::MAX,
        ensures
            p.pred_spec() == prepare_spec(pred@, self.binder_spec(), 0),
    {
        CheckedRefinementPredicate::owned(self.prepare_at_depth(pred, 0))
    }

    #[verifier::loop_isolation(false)]
    fn prepare_at_depth(&self, pred: &CoreExpr, depth: usize) -> (r: CoreExpr)
        requires
            depth + binder_depth(pred@) < usize::MAX,
        ensures
            r@ == prepare_spec(pred@, self.binder_spec(), depth as nat),
        decreases pred,
    {
        let ghost b = self.binder_spec();
        match pred {
            CoreExpr::Spanned(inner, span) => CoreExpr::Spanned(Box::new(self.prepare_at_depth(inner, depth)), *span),
            CoreExpr::Var(name) => if str_eq(name.as_str(), self.binder) {
                CoreExpr::Local(LocalRef::new(depth))
            } else {
                pred.duplicate()
            },
            CoreExpr::OptSome(inner) => CoreExpr::OptSome(Box::new(self.prepare_at_depth(inner, depth))),
            CoreExpr::List(items) => {
                let ghost iv = expr_list_view(items@);
                proof {
                    lemma_expr_list_view(items@);
                    lemma_prepare_list(iv, b, depth as nat);
                }
                let mut out: Vec<CoreExpr> = Vec::new();
                let mut i: usize = 0;
                while i < items.len()
                    invariant
                        i <= items@.len(),
                        iv.len() == items@.len(),
                        out@.len() == i,
                        forall|j: int| 0 <= j < i ==> #[trigger] out@[j]@ == prepare_spec(iv[j], b, depth as nat),
                    decreases items.len() - i,
                {
                    proof {
                        assert(decreases_to!(items => items@[i as int]));
                        assert(binder_depth(iv[i as int]) <= list_binder_depth(iv));
                    }
                    let item = self.prepare_at_depth(&items[i], depth);
                    out.push(item);
                    i = i + 1;
                }
                proof {
                    lemma_expr_list_view(out@);
                    assert forall|j: int| 0 <= j < iv.len() implies #[trigger] expr_list_view(out@)[j] == prepare_list_spec(iv, b, depth as nat)[j] by {
                        assert(out@[j]@ == prepare_spec(iv[j], b, depth as nat));
                    }
                    assert(expr_list_view(out@) =~= prepare_list_spec(iv, b, depth as nat));
                }
                CoreExpr::List(out)
            },
            CoreExpr::Record(fields) => {
                let ghost fv = expr_fields_view(fields.entries@);
                proof {
                    lemma_expr_fields_view(fields.entries@);
                    lemma_prepare_fields(fv, b, depth as nat);
                }
                let mut out: Vec<(String, CoreExpr)> = Vec::new();
                let mut i: usize = 0;
                while i < fields.entries.len()
                    invariant
                        i <= fields.entries@.len(),
                        fv.len() == fields.entries@.len(),
                        out@.len() == i,
                        forall|j: int| 0 <= j < i ==> (#[trigger] out@[j]).0@ == fv[j].0 && out@[j].1@ == prepare_spec(fv[j].1, b, depth as nat),
                    decreases fields.entries.len() - i,
                {
                    proof {
                        assert(decreases_to!(fields.entries => fields.entries@[i as int]));
                        assert(binder_depth(fv[i as int].1) <= fields_binder_depth(fv));
                    }
                    let value = self.prepare_at_depth(&fields.entries[i].1, depth);
                    out.push((fields.entries[i].0.clone(), value));
                    i = i + 1;
                }
                proof {
                    lemma_expr_fields_view(out@);
                    assert forall|j: int| 0 <= j < fv.len() implies #[trigger] expr_fields_view(out@)[j] == prepare_fields_spec(fv, b, depth as nat)[j] by {
                        assert(out@[j].1@ == prepare_spec(fv[j].1, b, depth as nat));
                    }
                    assert(expr_fields_view(out@) =~= prepare_fields_spec(fv, b, depth as nat));
                }
                CoreExpr::Record(FieldMap { entries: out })
            },
            CoreExpr::Field(inner, field) => CoreExpr::Field(Box::new(self.prepare_at_depth(inner, depth)), field.clone()),
            CoreExpr::If(c, t, f) => CoreExpr::If(
                Box::new(self.prepare_at_depth(c, depth)),
                Box::new(self.prepare_at_depth(t, depth)),
                Box::new(self.prepare_at_depth(f, depth)),
            ),
            CoreExpr::Let(name, annotation, value, body) => {
                let body = if str_eq(name.as_str(), self.binder) {
                    body.duplicate()
                } else {
                    self.prepare_at_depth(body, depth + 1)
                };
                let annotation = match annotation {
                    Some(ty) => Some(ty.duplicate()),
                    None => None,
                };
                CoreExpr::Let(name.clone(), annotation, Box::new(self.prepare_at_depth(value, depth)), Box::new(body))
            },
            CoreExpr::Lambda(param, ty, body) => {
                let body = if str_eq(param.as_str(), self.binder) {
                    body.duplicate()
                } else {
                    self.prepare_at_depth(body, depth + 1)
                };
                CoreExpr::Lambda(param.clone(), ty.duplicate(), Box::new(body))
            },
            CoreExpr::Apply(f, a) => CoreExpr::Apply(
                Box::new(self.prepare_at_depth(f, depth)),
                Box::new(self.prepare_at_depth(a, depth)),
            ),
            CoreExpr::Ascribe(inner, ty) => CoreExpr::Ascribe(Box::new(self.prepare_at_depth(inner, depth)), ty.duplicate()),
            CoreExpr::Unary(op, inner) => CoreExpr::Unary(op.clone(), Box::new(self.prepare_at_depth(inner, depth))),
            CoreExpr::Binary(op, l, r) => CoreExpr::Binary(
                op.clone(),
                Box::new(self.prepare_at_depth(l, depth)),
                Box::new(self.prepare_at_depth(r, depth)),
            ),
            _ => pred.duplicate(),
        }
    }
}

/// How a failed refinement is reported: the error code and the span of the
/// value, when known.
#[derive(Debug, Clone, Copy)]
pub struct RefinementValidationOptions {
    pub code: ErrorCode,
    pub value_span: Option<ByteRange>,
}

impl Default for RefinementValidationOptions {
    fn default() -> (o: Self)
        ensures
            o.code == ErrorCode::RefineFailed,
            o.value_span is None,
    {
        RefinementValidationOptions { code: ErrorCode::RefineFailed, value_span: None }
    }
}


/// The environment a predicate is evaluated in: the value bound to the
/// binder's name and as the innermost local, or only as that local.
pub open spec fn predicate_env(env: SpecEnv, binder: Option<Seq<char>>, v: SpecValue) -> SpecEnv {
    match binder {
        Some(b) => env_bind(env, b, v),
        None => SpecEnv { names: env.names, locals: env.locals.push(v), globals: env.globals },
    }
}

/// What validating a value against a predicate gives: the value when the
/// predicate holds, the given code when it does not, and an error otherwise.
pub open spec fn validation_outcome(pred: SpecExpr, env: SpecEnv, binder: Option<Seq<char>>, v: SpecValue, code: ErrorCode) -> core::result::Result<SpecValue, ErrorCode> {
    match eval_spec(pred, predicate_env(env, binder, v), DEFAULT_DEPTH as nat) {
        Ok(SpecValue::Bool(true)) => Ok(v),
        Ok(SpecValue::Bool(false)) => Err(code),
        Ok(_) => Err(ErrorCode::Reconf),
        Err(c) => Err(c.0),
    }
}

/// Checks values against refinement predicates in an environment.
pub struct CoreRefinementValidator {
    env: Env,
}

impl CoreRefinementValidator {
    pub closed spec fn env_spec(&self) -> SpecEnv {
        self.env@
    }

    pub fn new(env: Env) -> (v: CoreRefinementValidator)
        ensures
            v.env_spec() == env@,
    {
        CoreRefinementValidator { env }
    }

    /// Validates `value` against `pred`, whose free `binder` stands for it.
    pub fn validate(&self, value: Value, binder: &str, pred: &CoreExpr) -> (r: Result<Value>)
        ensures
            match r {
                Ok(v) => validation_outcome(pred@, self.env_spec(), Some(binder@), value@, ErrorCode::RefineFailed) == Ok::<SpecValue, ErrorCode>(v@),
                Err(e) => validation_outcome(pred@, self.env_spec(), Some(binder@), value@, ErrorCode::RefineFailed) == Err::<SpecValue, ErrorCode>(e.code_spec()),
            },
    {
        self.validate_with_options(value, binder, pred, RefinementValidationOptions::default())
    }

    /// Like `validate`, failing with the given code.
    pub fn validate_with_code(&self, value: Value, binder: &str, pred: &CoreExpr, code: ErrorCode) -> (r: Result<Value>)
        ensures
            match r {
                Ok(v) => validation_outcome(pred@, self.env_spec(), Some(binder@), value@, code) == Ok::<SpecValue, ErrorCode>(v@),
                Err(e) => validation_outcome(pred@, self.env_spec(), Some(binder@), value@, code) == Err::<SpecValue, ErrorCode>(e.code_spec()),
            },
    {
        self.validate_with_options(value, binder, pred, RefinementValidationOptions { code, value_span: None })
    }

    /// Like `validate`, reporting a failure as the options say.
    pub fn validate_with_options(&self, value: Value, binder: &str, pred: &CoreExpr, options: RefinementValidationOptions) -> (r: Result<Value>)
        ensures
            match r {
                Ok(v) => validation_outcome(pred@, self.env_spec(), Some(binder@), value@, options.code) == Ok::<SpecValue, ErrorCode>(v@),
                Err(e) => validation_outcome(pred@, self.env_spec(), Some(binder@), value@, options.code) == Err::<SpecValue, ErrorCode>(e.code_spec()),
            },
    {
        self.validate_checked_with_options(value, CheckedRefinementPredicate::new(pred), options, Some(binder))
    }

    /// Validates against a prepared predicate, in which the value is the
    /// innermost local.
    pub fn validate_checked(&self, value: Value, pred: CheckedRefinementPredicate) -> (r: Result<Value>)
        ensures
            match r {
                Ok(v) => validation_outcome(pred.pred_spec(), self.env_spec(), None, value@, ErrorCode::RefineFailed) == Ok::<SpecValue, ErrorCode>(v@),
                Err(e) => validation_outcome(pred.pred_spec(), self.env_spec(), None, value@, ErrorCode::RefineFailed) == Err::<SpecValue, ErrorCode>(e.code_spec()),
            },
    {
        self.validate_checked_with_options(value, pred, RefinementValidationOptions::default(), None)
    }

    /// Validates against a predicate, with the value bound to `binder` when
    /// there is one and as the innermost local in any case.
    pub fn validate_checked_with_options(&self, value: Value, pred: CheckedRefinementPredicate, options: RefinementValidationOptions, binder: Option<&str>) -> (r: Result<Value>)
        ensures
            match r {
                Ok(v) => validation_outcome(pred.pred_spec(), self.env_spec(), match binder { Some(b) => Some(b@), None => None }, value@, options.code) == Ok::<SpecValue, ErrorCode>(v@),
                Err(e) => validation_outcome(pred.pred_spec(), self.env_spec(), match binder { Some(b) => Some(b@), None => None }, value@, options.code) == Err::<SpecValue, ErrorCode>(e.code_spec()),
            },
            match eval_spec(pred.pred_spec(), predicate_env(self.env_spec(), match binder { Some(b) => Some(b@), None => None }, value@), DEFAULT_DEPTH as nat) {
                Ok(SpecValue::Bool(false)) => r matches Err(e) && e.message_spec() == "refinement failed"@ && match options.value_span {
                    Some(sp) => if sp.start <= sp.end {
                        e.labels_spec().len() == 1 && e.labels_spec()[0].span == sp
                            && e.labels_spec()[0].message@ == "value does not satisfy refinement"@
                    } else {
                        e.labels_spec().len() == 0
                    },
                    None => e.labels_spec().len() == 0,
                },
                Ok(SpecValue::Bool(true)) => true,
                Ok(_) => r matches Err(e) && e.message_spec() == "unknown predicate"@,
                Err(_) => true,
            },
    {
        let mut env = self.env.duplicate();
        match binder {
            Some(b) => env.bind(b.to_owned(), value.duplicate()),
            None => env.push_local(value.duplicate()),
        }
        match CoreEvaluator::new().eval(pred.expr(), &env)? {
            Value::Bool(true) => Ok(value),
            Value::Bool(false) => {
                let error = Error::with_code(options.code, "refinement failed");
                Err(match options.value_span {
                    Some(span) => error.with_label(span, "value does not satisfy refinement"),
                    None => error,
                })
            },
            _ => Err(Error::new("unknown predicate")),
        }
    }
}

} // verus!
