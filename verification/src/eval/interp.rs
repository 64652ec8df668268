//! Evaluation of core expressions. The evaluator is given a depth budget:
//! each nested evaluation, application or native call spends one unit, and
//! a computation that needs more fails instead of recursing without end.

use vstd::prelude::*;

use crate::core_lang::ast::{expr_fields_view, expr_list_view, lemma_expr_fields_view, lemma_expr_list_view, CoreExpr, SpecExpr};
use crate::error::{Error, ErrorCode, Result};
use crate::eval::builtins::{arity, native_arity};
use crate::eval::value::{
    env_bind, lemma_value_fields_view, lemma_values_view, local_at, lookup_name, value_eq_spec,
    list_eq_spec, fields_eq_spec, value_fields_view, values_view, Env, NativeFunction, SpecEnv,
    SpecValue, Value,
};
use crate::fields::{lookup, lemma_lookup_first, lemma_lookup_none, FieldMap};
use crate::text::{bool_to_string, concat, int_text, int_to_string, str_eq};

verus! {

broadcast use vstd::std_specs::vec::group_vec_axioms;

/// A refusal in the model: the error's code and its message.
pub type EvalError = (ErrorCode, Seq<char>);

/// The outcome of evaluation in the model: a value or a refusal.
pub type EvalResult = core::result::Result<SpecValue, EvalError>;

/// A refusal with the general code.
pub open spec fn refused(message: Seq<char>) -> EvalError {
    (ErrorCode::Reconf, message)
}

/// The refusal of a native function called with arguments it does not take.
pub open spec fn invalid_native(name: Seq<char>) -> EvalError {
    refused("type mismatch: invalid arguments to native `"@ + name + "`"@)
}

/// The refusal of evaluation past its depth budget.
pub open spec fn too_deep() -> EvalError {
    refused("evaluation is nested too deeply"@)
}

/// The evaluation depth an evaluator starts with.
pub const DEFAULT_DEPTH: usize = 10000;

pub open spec fn fits_i64(x: int) -> bool {
    i64::MIN <= x <= i64::MAX
}

pub open spec fn abs(x: int) -> nat {
    if x < 0 { (-x) as nat } else { x as nat }
}

/// Integer division rounding toward zero.
pub open spec fn trunc_div(a: int, b: int) -> int {
    let q = abs(a) / abs(b);
    if (a < 0) == (b < 0) { q as int } else { -q }
}

/// The remainder of division rounding toward zero: it has the sign of `a`.
pub open spec fn trunc_rem(a: int, b: int) -> int {
    let r = abs(a) % abs(b);
    if a < 0 { -r } else { r as int }
}

pub open spec fn int_result(x: int) -> EvalResult {
    if fits_i64(x) { Ok(SpecValue::Int(x as i64)) } else { Err(refused("integer overflow"@)) }
}

/// A binary operator on two integers.
pub open spec fn int_binary(op: Seq<char>, x: i64, y: i64) -> EvalResult {
    if op == "+"@ {
        int_result(x + y)
    } else if op == "-"@ {
        int_result(x - y)
    } else if op == "*"@ {
        int_result(x * y)
    } else if op == "/"@ {
        if y == 0 { Err((ErrorCode::RuntimeDivisionByZero, "division by zero"@)) } else { int_result(trunc_div(x as int, y as int)) }
    } else if op == "%"@ {
        if y == 0 {
            Err((ErrorCode::RuntimeDivisionByZero, "division by zero"@))
        } else if fits_i64(trunc_div(x as int, y as int)) {
            Ok(SpecValue::Int(trunc_rem(x as int, y as int) as i64))
        } else {
            Err(refused("integer overflow"@))
        }
    } else if op == "<"@ {
        Ok(SpecValue::Bool(x < y))
    } else if op == "<="@ {
        Ok(SpecValue::Bool(x <= y))
    } else if op == ">"@ {
        Ok(SpecValue::Bool(x > y))
    } else if op == ">="@ {
        Ok(SpecValue::Bool(x >= y))
    } else {
        Err(refused("type mismatch: invalid binary "@ + op))
    }
}

/// A binary operator on two evaluated operands (other than `&&` and `||`).
/// Arithmetic and comparison of floats are not evaluated.
pub open spec fn binary_spec(op: Seq<char>, a: SpecValue, b: SpecValue) -> EvalResult {
    if op == "=="@ {
        Ok(SpecValue::Bool(value_eq_spec(a, b)))
    } else if op == "!="@ {
        Ok(SpecValue::Bool(!value_eq_spec(a, b)))
    } else {
        match (a, b) {
            (SpecValue::Int(x), SpecValue::Int(y)) => int_binary(op, x, y),
            (SpecValue::Str(x), SpecValue::Str(y)) => if op == "++"@ { Ok(SpecValue::Str(x + y)) } else { Err(refused("type mismatch: invalid binary "@ + op)) },
            _ => Err(refused("type mismatch: invalid binary "@ + op)),
        }
    }
}

/// A unary operator on an evaluated operand.
pub open spec fn unary_spec(op: Seq<char>, v: SpecValue) -> EvalResult {
    match v {
        SpecValue::Bool(b) => if op == "!"@ { Ok(SpecValue::Bool(!b)) } else { Err(refused("type mismatch: invalid unary "@ + op)) },
        SpecValue::Int(x) => if op == "-"@ { int_result(-x) } else { Err(refused("type mismatch: invalid unary "@ + op)) },
        _ => Err(refused("type mismatch: invalid unary "@ + op)),
    }
}

/// Whether `needle` occurs in `hay`.
pub open spec fn seq_contains(hay: Seq<char>, needle: Seq<char>) -> bool {
    exists|i: int| 0 <= i && i + needle.len() <= hay.len() && #[trigger] hay.subrange(i, i + needle.len()) == needle
}

pub open spec fn starts_with(s: Seq<char>, p: Seq<char>) -> bool {
    p.len() <= s.len() && s.take(p.len() as int) == p
}

pub open spec fn ends_with(s: Seq<char>, p: Seq<char>) -> bool {
    p.len() <= s.len() && s.skip(s.len() - p.len()) == p
}

/// Whether some item equals `needle`.
pub open spec fn list_contains(items: Seq<SpecValue>, needle: SpecValue) -> bool {
    exists|i: int| 0 <= i < items.len() && value_eq_spec(#[trigger] items[i], needle)
}

/// Folds a list of booleans with `&&` (`all`) or `||` (`any`); an item that
/// is not a boolean is an error.
pub open spec fn bools_fold(items: Seq<SpecValue>, all: bool) -> core::result::Result<bool, EvalError>
    decreases items.len(),
{
    if items.len() == 0 {
        Ok(all)
    } else {
        match items[0] {
            SpecValue::Bool(b) => match bools_fold(items.drop_first(), all) {
                Ok(r) => Ok(if all { b && r } else { b || r }),
                Err(c) => Err(c),
            },
            _ => Err(refused("type mismatch: expected a list of Bool"@)),
        }
    }
}

/// The text `show` gives a value.
pub open spec fn show_text(v: SpecValue) -> Option<Seq<char>> {
    match v {
        SpecValue::Int(x) => Some(int_text(x as int)),
        SpecValue::Float(t) => Some(t),
        SpecValue::Bool(b) => Some(if b { "true"@ } else { "false"@ }),
        SpecValue::Str(s) => Some(s),
        _ => None,
    }
}

/// Evaluating `e` in `env` within `fuel` nested steps.
/// The field of a record value with that name.
pub open spec fn record_field(v: SpecValue, name: Seq<char>) -> Option<SpecValue> {
    match v {
        SpecValue::Record(fs) => lookup(fs, name),
        _ => None,
    }
}

/// The function a method call `x.name` applies to `x`: the value bound to
/// the name, or the native function of that name.
pub open spec fn method_spec(env: SpecEnv, name: Seq<char>) -> Option<SpecValue> {
    match lookup_name(env.names, name) {
        Some(m) => Some(m),
        None => if native_arity(name) is Some {
            Some(SpecValue::Native { name, args: Seq::empty() })
        } else {
            None
        },
    }
}

/// Evaluation: a field access on a value that is not a record with that
/// field is a method call, which applies the function of that name to the
/// value.
pub open spec fn eval_spec(e: SpecExpr, env: SpecEnv, fuel: nat) -> EvalResult
    decreases fuel, 0nat,
{
    if fuel == 0 {
        Err(too_deep())
    } else {
        let f = (fuel - 1) as nat;
        match e {
            SpecExpr::Spanned(x, _) => eval_spec(*x, env, f),
            SpecExpr::Int(i) => Ok(SpecValue::Int(i)),
            SpecExpr::Float(t) => Ok(SpecValue::Float(t)),
            SpecExpr::Bool(b) => Ok(SpecValue::Bool(b)),
            SpecExpr::Str(s) => Ok(SpecValue::Str(s)),
            SpecExpr::OptNone => Ok(SpecValue::OptNone),
            SpecExpr::OptSome(x) => match eval_spec(*x, env, f) {
                Ok(v) => Ok(SpecValue::OptSome(Box::new(v))),
                Err(c) => Err(c),
            },
            SpecExpr::Var(n) => match lookup_name(env.names, n) {
                Some(v) => Ok(v),
                None => if native_arity(n) is Some {
                    Ok(SpecValue::Native { name: n, args: Seq::empty() })
                } else {
                    Err(refused("unknown identifier `"@ + n + "`"@))
                },
            },
            SpecExpr::Global(g) => match lookup(env.globals, g) {
                Some(v) => Ok(v),
                None => Err(refused("internal error: invalid global reference"@)),
            },
            SpecExpr::Local(l) => match local_at(env.locals, l.0) {
                Some(v) => Ok(v),
                None => Err(refused("internal error: invalid local reference"@)),
            },
            SpecExpr::List(items) => match eval_list_spec(items, env, f) {
                Ok(vs) => Ok(SpecValue::List(vs)),
                Err(c) => Err(c),
            },
            SpecExpr::Record(fs) => match eval_fields_spec(fs, env, f) {
                Ok(vs) => Ok(SpecValue::Record(vs)),
                Err(c) => Err(c),
            },
            SpecExpr::Field(x, name) => match eval_spec(*x, env, f) {
                Ok(v) => match record_field(v, name) {
                    Some(found) => Ok(found),
                    None => match method_spec(env, name) {
                        Some(m) => apply_spec(m, v, f),
                        None => Err(refused("unknown field `"@ + name + "`"@)),
                    },
                },
                Err(c) => Err(c),
            },
            SpecExpr::If(c, t, o) => match eval_spec(*c, env, f) {
                Ok(SpecValue::Bool(true)) => eval_spec(*t, env, f),
                Ok(SpecValue::Bool(false)) => eval_spec(*o, env, f),
                Ok(_) => Err(refused("type mismatch: if condition must be Bool"@)),
                Err(code) => Err(code),
            },
            SpecExpr::Let(name, _, v, b) => match eval_spec(*v, env, f) {
                Ok(x) => eval_spec(*b, env_bind(env, name, x), f),
                Err(c) => Err(c),
            },
            SpecExpr::Lambda(p, _, b) => Ok(SpecValue::Closure { param: p, body: *b, env }),
            SpecExpr::Apply(fx, ax) => match eval_spec(*fx, env, f) {
                Ok(fv) => match eval_spec(*ax, env, f) {
                    Ok(av) => apply_spec(fv, av, f),
                    Err(c) => Err(c),
                },
                Err(c) => Err(c),
            },
            SpecExpr::Ascribe(x, _) => eval_spec(*x, env, f),
            SpecExpr::Unary(op, x) => match eval_spec(*x, env, f) {
                Ok(v) => unary_spec(op, v),
                Err(c) => Err(c),
            },
            SpecExpr::Binary(op, l, r) => if op == "&&"@ || op == "||"@ {
                match eval_spec(*l, env, f) {
                    Ok(SpecValue::Bool(lb)) => if lb == (op == "||"@) {
                        Ok(SpecValue::Bool(lb))
                    } else {
                        match eval_spec(*r, env, f) {
                            Ok(SpecValue::Bool(rb)) => Ok(SpecValue::Bool(rb)),
                            Ok(_) => Err(refused("type mismatch: "@ + op + " expects Bool"@)),
                            Err(c) => Err(c),
                        }
                    },
                    Ok(_) => Err(refused("type mismatch: "@ + op + " expects Bool"@)),
                    Err(c) => Err(c),
                }
            } else {
                match eval_spec(*l, env, f) {
                    Ok(lv) => match eval_spec(*r, env, f) {
                        Ok(rv) => binary_spec(op, lv, rv),
                        Err(c) => Err(c),
                    },
                    Err(c) => Err(c),
                }
            },
        }
    }
}

/// Evaluating list items in order.
pub open spec fn eval_list_spec(items: Seq<SpecExpr>, env: SpecEnv, fuel: nat) -> core::result::Result<Seq<SpecValue>, EvalError>
    decreases fuel, items.len(),
{
    if items.len() == 0 {
        Ok(Seq::empty())
    } else {
        match eval_spec(items[0], env, fuel) {
            Ok(v) => match eval_list_spec(items.drop_first(), env, fuel) {
                Ok(vs) => Ok(seq![v] + vs),
                Err(c) => Err(c),
            },
            Err(c) => Err(c),
        }
    }
}

/// Evaluating record fields in order.
pub open spec fn eval_fields_spec(fs: Seq<(Seq<char>, SpecExpr)>, env: SpecEnv, fuel: nat) -> core::result::Result<Seq<(Seq<char>, SpecValue)>, EvalError>
    decreases fuel, fs.len(),
{
    if fs.len() == 0 {
        Ok(Seq::empty())
    } else {
        match eval_spec(fs[0].1, env, fuel) {
            Ok(v) => match eval_fields_spec(fs.drop_first(), env, fuel) {
                Ok(vs) => Ok(seq![(fs[0].0, v)] + vs),
                Err(c) => Err(c),
            },
            Err(c) => Err(c),
        }
    }
}

/// Applying a function value to an argument: a closure evaluates its body
/// with the argument bound; a native function collects arguments until it
/// has as many as its arity and is then called.
pub open spec fn apply_spec(fv: SpecValue, arg: SpecValue, fuel: nat) -> EvalResult
    decreases fuel, 0nat,
{
    if fuel == 0 {
        Err(too_deep())
    } else {
        let f = (fuel - 1) as nat;
        match fv {
            SpecValue::Closure { param, body, env } => eval_spec(body, env_bind(env, param, arg), f),
            SpecValue::Native { name, args } => match native_arity(name) {
                Some(n) => if args.len() + 1 == n {
                    call_spec(name, args.push(arg), f)
                } else {
                    Ok(SpecValue::Native { name, args: args.push(arg) })
                },
                None => Err(refused("unknown native `"@ + name + "`"@)),
            },
            _ => Err(refused("type mismatch: applying non-function"@)),
        }
    }
}

/// Calling a native function with all its arguments.
pub open spec fn call_spec(name: Seq<char>, args: Seq<SpecValue>, fuel: nat) -> EvalResult
    decreases fuel, 1nat,
{
    if fuel == 0 {
        Err(too_deep())
    } else if args.len() == 1 {
        call_one_spec(name, args[0])
    } else if args.len() == 2 {
        call_two_spec(name, args[0], args[1], (fuel - 1) as nat)
    } else {
        Err(invalid_native(name))
    }
}

/// The native functions of one argument.
pub open spec fn call_one_spec(name: Seq<char>, a: SpecValue) -> EvalResult {
    if name == "show"@ {
        match show_text(a) {
            Some(t) => Ok(SpecValue::Str(t)),
            None => Err(invalid_native(name)),
        }
    } else if name == "length"@ {
        match a {
            SpecValue::Str(s) => Ok(SpecValue::Int(s.len() as i64)),
            SpecValue::List(xs) => Ok(SpecValue::Int(xs.len() as i64)),
            _ => Err(invalid_native(name)),
        }
    } else if name == "isSome"@ || name == "isNone"@ {
        match a {
            SpecValue::OptSome(_) => Ok(SpecValue::Bool(name == "isSome"@)),
            SpecValue::OptNone => Ok(SpecValue::Bool(name == "isNone"@)),
            _ => Err(invalid_native(name)),
        }
    } else if name == "all"@ || name == "any"@ {
        match a {
            SpecValue::List(xs) => match bools_fold(xs, name == "all"@) {
                Ok(b) => Ok(SpecValue::Bool(b)),
                Err(c) => Err(c),
            },
            _ => Err(invalid_native(name)),
        }
    } else {
        Err(invalid_native(name))
    }
}

/// The native functions of two arguments; `map` and `filter` apply the
/// function within `f` nested steps.
pub open spec fn call_two_spec(name: Seq<char>, a: SpecValue, b: SpecValue, f: nat) -> EvalResult
    decreases f + 1, 0nat,
{
    if name == "unwrapOr"@ {
        match a {
            SpecValue::OptNone => Ok(b),
            SpecValue::OptSome(v) => Ok(*v),
            _ => Err(invalid_native(name)),
        }
    } else if name == "contains"@ {
        match (a, b) {
            (SpecValue::Str(h), SpecValue::Str(n)) => Ok(SpecValue::Bool(seq_contains(h, n))),
            (SpecValue::List(xs), needle) => Ok(SpecValue::Bool(list_contains(xs, needle))),
            _ => Err(invalid_native(name)),
        }
    } else if name == "startsWith"@ || name == "endsWith"@ {
        match (a, b) {
            (SpecValue::Str(s), SpecValue::Str(p)) => Ok(SpecValue::Bool(if name == "startsWith"@ { starts_with(s, p) } else { ends_with(s, p) })),
            _ => Err(invalid_native(name)),
        }
    } else if name == "map"@ {
        match a {
            SpecValue::List(xs) => match map_spec(xs, b, f) {
                Ok(vs) => Ok(SpecValue::List(vs)),
                Err(c) => Err(c),
            },
            _ => Err(invalid_native(name)),
        }
    } else if name == "filter"@ {
        match a {
            SpecValue::List(xs) => match filter_spec(xs, b, f) {
                Ok(vs) => Ok(SpecValue::List(vs)),
                Err(c) => Err(c),
            },
            _ => Err(invalid_native(name)),
        }
    } else {
        Err(invalid_native(name))
    }
}

/// Applying `f` to each item, in order.
pub open spec fn map_spec(items: Seq<SpecValue>, f: SpecValue, fuel: nat) -> core::result::Result<Seq<SpecValue>, EvalError>
    decreases fuel, items.len(),
{
    if items.len() == 0 {
        Ok(Seq::empty())
    } else {
        match apply_spec(f, items[0], fuel) {
            Ok(v) => match map_spec(items.drop_first(), f, fuel) {
                Ok(vs) => Ok(seq![v] + vs),
                Err(c) => Err(c),
            },
            Err(c) => Err(c),
        }
    }
}

/// The items for which `f` gives `true`; `f` must give a boolean.
pub open spec fn filter_spec(items: Seq<SpecValue>, f: SpecValue, fuel: nat) -> core::result::Result<Seq<SpecValue>, EvalError>
    decreases fuel, items.len(),
{
    if items.len() == 0 {
        Ok(Seq::empty())
    } else {
        match apply_spec(f, items[0], fuel) {
            Ok(SpecValue::Bool(keep)) => match filter_spec(items.drop_first(), f, fuel) {
                Ok(vs) => Ok(if keep { seq![items[0]] + vs } else { vs }),
                Err(c) => Err(c),
            },
            Ok(_) => Err(refused("type mismatch: filter predicate must return Bool"@)),
            Err(c) => Err(c),
        }
    }
}

/// The evaluation outcome with a refusal reduced to its code.
pub open spec fn eval_coded(e: SpecExpr, env: SpecEnv, fuel: nat) -> core::result::Result<SpecValue, ErrorCode> {
    match eval_spec(e, env, fuel) {
        Ok(v) => Ok(v),
        Err(c) => Err(c.0),
    }
}

/// An executable result agrees with a model result.
pub open spec fn vagrees(r: Result<Value>, s: EvalResult) -> bool {
    match r {
        Ok(v) => s == Ok::<SpecValue, EvalError>(v@),
        Err(e) => s == Err::<SpecValue, EvalError>((e.code_spec(), e.message_spec())),
    }
}


/// Structural equality of values.
#[verifier::loop_isolation(false)]
pub fn value_eq(a: &Value, b: &Value) -> (r: bool)
    ensures
        r == value_eq_spec(a@, b@),
    decreases a,
{
    match (a, b) {
        (Value::Int(x), Value::Int(y)) => *x == *y,
        (Value::Float(x), Value::Float(y)) => str_eq(x.as_str(), y.as_str()),
        (Value::Bool(x), Value::Bool(y)) => *x == *y,
        (Value::Str(x), Value::Str(y)) => str_eq(x.as_str(), y.as_str()),
        (Value::OptNone, Value::OptNone) => true,
        (Value::OptSome(x), Value::OptSome(y)) => value_eq(x, y),
        (Value::List(xs), Value::List(ys)) => {
            let ghost xv = values_view(xs@);
            let ghost yv = values_view(ys@);
            proof {
                lemma_values_view(xs@);
                lemma_values_view(ys@);
            }
            if xs.len() != ys.len() {
                return false;
            }
            let mut i: usize = 0;
            assert(xv.skip(0) =~= xv && yv.skip(0) =~= yv);
            while i < xs.len()
                invariant
                    i <= xs@.len(),
                    xs@.len() == ys@.len(),
                    list_eq_spec(xv, yv) == list_eq_spec(xv.skip(i as int), yv.skip(i as int)),
                decreases xs.len() - i,
            {
                proof {
                    assert(decreases_to!(xs => xs@[i as int]));
                    assert(xv.skip(i as int)[0] == xv[i as int]);
                    assert(yv.skip(i as int)[0] == yv[i as int]);
                    assert(xv.skip(i as int).drop_first() =~= xv.skip(i + 1));
                    assert(yv.skip(i as int).drop_first() =~= yv.skip(i + 1));
                }
                if !value_eq(&xs[i], &ys[i]) {
                    return false;
                }
                i = i + 1;
            }
            assert(xv.skip(i as int) =~= Seq::<SpecValue>::empty());
            true
        },
        (Value::Record(xs), Value::Record(ys)) => {
            let ghost xv = value_fields_view(xs.entries@);
            let ghost yv = value_fields_view(ys.entries@);
            proof {
                lemma_value_fields_view(xs.entries@);
                lemma_value_fields_view(ys.entries@);
            }
            if xs.entries.len() != ys.entries.len() {
                return false;
            }
            let mut i: usize = 0;
            assert(xv.skip(0) =~= xv);
            while i < xs.entries.len()
                invariant
                    i <= xs.entries@.len(),
                    fields_eq_spec(xv, yv) == fields_eq_spec(xv.skip(i as int), yv),
                decreases xs.entries.len() - i,
            {
                proof {
                    assert(decreases_to!(xs.entries => xs.entries@[i as int]));
                    assert(decreases_to!(xs.entries@[i as int] => xs.entries@[i as int].1));
                    assert(xv.skip(i as int)[0] == xv[i as int]);
                    assert(xv.skip(i as int).drop_first() =~= xv.skip(i + 1));
                }
                let ghost es = ys.entries@;
                match ys.get(xs.entries[i].0.as_str()) {
                    Some(y) => {
                        proof {
                            let q = choose|q: int|
                                0 <= q < es.len() && es[q].0@ == xs.entries@[i as int].0@ && es[q].1 == *y
                                    && forall|j: int| 0 <= j < q ==> es[j].0@ != xs.entries@[i as int].0@;
                            lemma_lookup_first(yv, xs.entries@[i as int].0@, q);
                        }
                        if !value_eq(&xs.entries[i].1, y) {
                            return false;
                        }
                    },
                    None => {
                        proof {
                            lemma_lookup_none(yv, xs.entries@[i as int].0@);
                        }
                        return false;
                    },
                }
                i = i + 1;
            }
            assert(xv.skip(i as int) =~= Seq::<(Seq<char>, SpecValue)>::empty());
            true
        },
        _ => false,
    }
}

/// Evaluates core expressions.
pub struct CoreEvaluator;

impl CoreEvaluator {
    pub fn new() -> (e: CoreEvaluator) {
        CoreEvaluator
    }

    /// Evaluates `expr` in `env` with the default depth budget.
    pub fn eval(&mut self, expr: &CoreExpr, env: &Env) -> (r: Result<Value>)
        ensures
            vagrees(r, eval_spec(expr@, env@, DEFAULT_DEPTH as nat)),
    {
        eval_expr(expr, env, DEFAULT_DEPTH)
    }
}

fn depth_error() -> (e: Error)
    ensures
        (e.code_spec(), e.message_spec()) == too_deep(),
{
    Error::new("evaluation is nested too deeply")
}

/// The value most recently bound to `name`.
#[verifier::loop_isolation(false)]
fn find_name(env: &Env, name: &String) -> (r: Option<Value>)
    ensures
        match r {
            Some(v) => lookup_name(env@.names, name@) == Some(v@),
            None => lookup_name(env@.names, name@) is None,
        },
{
    let ghost m = env@.names;
    proof {
        lemma_value_fields_view(env.names@);
    }
    let mut k: usize = env.names.len();
    assert(m.take(k as int) =~= m);
    while k > 0
        invariant
            k <= env.names@.len(),
            m == env@.names,
            m.len() == env.names@.len(),
            lookup_name(m, name@) == lookup_name(m.take(k as int), name@),
        decreases k,
    {
        assert(m.take(k as int).last() == m[k - 1]);
        assert(m.take(k as int).drop_last() =~= m.take(k - 1));
        if env.names[k - 1].0 == *name {
            return Some(env.names[k - 1].1.duplicate());
        }
        k = k - 1;
    }
    None
}

/// The value of a global reference.
#[verifier::loop_isolation(false)]
fn find_global(env: &Env, g: crate::core_lang::ast::GlobalRef) -> (r: Option<Value>)
    ensures
        match r {
            Some(v) => lookup(env@.globals, g) == Some(v@),
            None => lookup(env@.globals, g) is None,
        },
{
    let ghost m = env@.globals;
    proof {
        crate::eval::value::lemma_globals_view(env.globals@);
    }
    let mut i: usize = 0;
    while i < env.globals.len()
        invariant
            i <= env.globals@.len(),
            m == env@.globals,
            m.len() == env.globals@.len(),
            forall|j: int| 0 <= j < i ==> m[j].0 != g,
        decreases env.globals.len() - i,
    {
        if env.globals[i].0 == g {
            proof {
                lemma_lookup_first(m, g, i as int);
            }
            return Some(env.globals[i].1.duplicate());
        }
        i = i + 1;
    }
    proof {
        lemma_lookup_none(m, g);
    }
    None
}

/// The message of a refused integer operation: division by zero, a result
/// out of range, or an operator integers do not have.
pub open spec fn int_op_message(op: Seq<char>, y: i64) -> Seq<char> {
    if (op == "/"@ || op == "%"@) && y == 0 {
        "division by zero"@
    } else if op == "+"@ || op == "-"@ || op == "*"@ || op == "/"@ || op == "%"@ {
        "integer overflow"@
    } else {
        "type mismatch: invalid binary "@ + op
    }
}

/// The message of a refused binary operation on evaluated operands.
pub open spec fn binary_message(op: Seq<char>, a: SpecValue, b: SpecValue) -> Seq<char> {
    match (a, b) {
        (SpecValue::Int(_), SpecValue::Int(y)) => int_op_message(op, y),
        _ => "type mismatch: invalid binary "@ + op,
    }
}

/// An integer result, refused when it leaves the range of `i64`.
fn int_value(x: i128) -> (r: Result<Value>)
    ensures
        vagrees(r, int_result(x as int)),
        r matches Err(e) ==> e.message_spec() == "integer overflow"@,
{
    if x < i64::MIN as i128 || x > i64::MAX as i128 {
        Err(Error::new("integer overflow"))
    } else {
        Ok(Value::Int(x as i64))
    }
}

/// A binary operator on two integers.
fn int_op(op: &str, x: i64, y: i64) -> (r: Result<Value>)
    ensures
        vagrees(r, int_binary(op@, x, y)),
        r matches Err(e) ==> e.message_spec() == int_op_message(op@, y),
{
    proof {
        reveal_strlit("+");
        reveal_strlit("-");
        reveal_strlit("*");
        reveal_strlit("/");
        reveal_strlit("%");
        assert("+"@[0] == '+' && "-"@[0] == '-' && "*"@[0] == '*' && "/"@[0] == '/' && "%"@[0] == '%');
    }
    let a = x as i128;
    let b = y as i128;
    if str_eq(op, "+") {
        int_value(a + b)
    } else if str_eq(op, "-") {
        int_value(a - b)
    } else if str_eq(op, "*") {
        assert(-9223372036854775808 <= a <= 9223372036854775807);
        assert(-9223372036854775808 <= b <= 9223372036854775807);
        assert(-85070591730234615865843651857942052864 <= a * b <= 85070591730234615865843651857942052864) by (nonlinear_arith)
            requires
                -9223372036854775808 <= a <= 9223372036854775807,
                -9223372036854775808 <= b <= 9223372036854775807,
        ;
        int_value(a * b)
    } else if str_eq(op, "/") || str_eq(op, "%") {
        if y == 0 {
            return Err(Error::with_code(ErrorCode::RuntimeDivisionByZero, "division by zero"));
        }
        let ua: u128 = if a < 0 { (-a) as u128 } else { a as u128 };
        let ub: u128 = if b < 0 { (-b) as u128 } else { b as u128 };
        let q = (ua / ub) as i128;
        let quotient: i128 = if (a < 0) == (b < 0) { q } else { -q };
        if str_eq(op, "/") {
            int_value(quotient)
        } else {
            if quotient < i64::MIN as i128 || quotient > i64::MAX as i128 {
                return Err(Error::new("integer overflow"));
            }
            let r = (ua % ub) as i128;
            let rem: i128 = if a < 0 { -r } else { r };
            assert(abs(x as int) % abs(y as int) < abs(y as int));
            Ok(Value::Int(rem as i64))
        }
    } else if str_eq(op, "<") {
        Ok(Value::Bool(x < y))
    } else if str_eq(op, "<=") {
        Ok(Value::Bool(x <= y))
    } else if str_eq(op, ">") {
        Ok(Value::Bool(x > y))
    } else if str_eq(op, ">=") {
        Ok(Value::Bool(x >= y))
    } else {
        Err(Error::new(concat("type mismatch: invalid binary ", op).as_str()))
    }
}

/// A binary operator (other than `&&` and `||`) on evaluated operands.
fn binary_value(op: &str, a: Value, b: Value) -> (r: Result<Value>)
    ensures
        vagrees(r, binary_spec(op@, a@, b@)),
        r matches Err(e) ==> e.message_spec() == binary_message(op@, a@, b@),
{
    if str_eq(op, "==") {
        return Ok(Value::Bool(value_eq(&a, &b)));
    }
    if str_eq(op, "!=") {
        return Ok(Value::Bool(!value_eq(&a, &b)));
    }
    match (a, b) {
        (Value::Int(x), Value::Int(y)) => int_op(op, x, y),
        (Value::Str(x), Value::Str(y)) => if str_eq(op, "++") {
            Ok(Value::Str(concat(x.as_str(), y.as_str())))
        } else {
            Err(Error::new(concat("type mismatch: invalid binary ", op).as_str()))
        },
        _ => Err(Error::new(concat("type mismatch: invalid binary ", op).as_str())),
    }
}

/// A unary operator on an evaluated operand.
fn unary_value(op: &str, v: Value) -> (r: Result<Value>)
    ensures
        vagrees(r, unary_spec(op@, v@)),
        r matches Err(e) ==> e.message_spec() == (if v@ is Int && op@ == "-"@ { "integer overflow"@ } else { "type mismatch: invalid unary "@ + op@ }),
{
    match v {
        Value::Bool(b) => if str_eq(op, "!") {
            Ok(Value::Bool(!b))
        } else {
            Err(Error::new(concat("type mismatch: invalid unary ", op).as_str()))
        },
        Value::Int(x) => if str_eq(op, "-") {
            int_value(-(x as i128))
        } else {
            Err(Error::new(concat("type mismatch: invalid unary ", op).as_str()))
        },
        _ => Err(Error::new(concat("type mismatch: invalid unary ", op).as_str())),
    }
}


/// Evaluates `expr` in `env` within `fuel` nested steps.
pub fn eval_expr(expr: &CoreExpr, env: &Env, fuel: usize) -> (r: Result<Value>)
    ensures
        vagrees(r, eval_spec(expr@, env@, fuel as nat)),
    decreases fuel, 0nat,
{
    if fuel == 0 {
        return Err(depth_error());
    }
    let f = fuel - 1;
    match expr {
        CoreExpr::Spanned(x, _) => eval_expr(x, env, f),
        CoreExpr::Int(i) => Ok(Value::Int(*i)),
        CoreExpr::Float(t) => Ok(Value::Float(t.clone())),
        CoreExpr::Bool(b) => Ok(Value::Bool(*b)),
        CoreExpr::String(s) => Ok(Value::Str(s.clone())),
        CoreExpr::OptNone => Ok(Value::OptNone),
        CoreExpr::OptSome(x) => Ok(Value::OptSome(Box::new(eval_expr(x, env, f)?))),
        CoreExpr::Var(name) => match find_name(env, name) {
            Some(v) => Ok(v),
            None => if crate::eval::builtins::declared(name.as_str()) {
                let args: Vec<Value> = Vec::new();
                proof {
                    assert(values_view(args@) =~= Seq::<SpecValue>::empty());
                }
                Ok(Value::Native(NativeFunction { name: name.clone(), args }))
            } else {
                Err(Error::new(crate::text::concat3("unknown identifier `", name.as_str(), "`").as_str()))
            },
        },
        CoreExpr::Global(g) => match find_global(env, *g) {
            Some(v) => Ok(v),
            None => Err(Error::new("internal error: invalid global reference")),
        },
        CoreExpr::Local(l) => {
            proof {
                lemma_values_view(env.locals@);
            }
            if l.index() < env.locals.len() {
                Ok(env.locals[env.locals.len() - 1 - l.index()].duplicate())
            } else {
                Err(Error::new("internal error: invalid local reference"))
            }
        },
        CoreExpr::List(items) => Ok(Value::List(eval_items(items, env, f)?)),
        CoreExpr::Record(fields) => Ok(Value::Record(FieldMap { entries: eval_fields(&fields.entries, env, f)? })),
        CoreExpr::Field(x, name) => {
            let v = eval_expr(x, env, f)?;
            if let Value::Record(fields) = &v {
                let ghost es = fields.entries@;
                proof {
                    lemma_value_fields_view(es);
                }
                match fields.get(name.as_str()) {
                    Some(found) => {
                        proof {
                            let q = choose|q: int|
                                0 <= q < es.len() && es[q].0@ == name@ && es[q].1 == *found
                                    && forall|j: int| 0 <= j < q ==> es[j].0@ != name@;
                            lemma_lookup_first(value_fields_view(es), name@, q);
                        }
                        return Ok(found.duplicate());
                    },
                    None => {
                        proof {
                            lemma_lookup_none(value_fields_view(es), name@);
                        }
                    },
                }
            }
            assert(record_field(v@, name@) is None);
            let method = match find_name(env, name) {
                Some(m) => m,
                None => if crate::eval::builtins::declared(name.as_str()) {
                    let args: Vec<Value> = Vec::new();
                    proof {
                        assert(values_view(args@) =~= Seq::<SpecValue>::empty());
                    }
                    Value::Native(NativeFunction { name: name.clone(), args })
                } else {
                    return Err(Error::new(crate::text::concat3("unknown field `", name.as_str(), "`").as_str()));
                },
            };
            apply_value(method, v, f)
        },
        CoreExpr::If(c, t, o) => match eval_expr(c, env, f)? {
            Value::Bool(true) => eval_expr(t, env, f),
            Value::Bool(false) => eval_expr(o, env, f),
            _ => Err(Error::new("type mismatch: if condition must be Bool")),
        },
        CoreExpr::Let(name, _, v, b) => {
            let x = eval_expr(v, env, f)?;
            let mut inner = env.duplicate();
            inner.bind(name.clone(), x);
            eval_expr(b, &inner, f)
        },
        CoreExpr::Lambda(p, _, b) => Ok(Value::Closure { param: p.clone(), body: b.duplicate(), env: env.duplicate() }),
        CoreExpr::Apply(fx, ax) => {
            let fv = eval_expr(fx, env, f)?;
            let av = eval_expr(ax, env, f)?;
            apply_value(fv, av, f)
        },
        CoreExpr::Ascribe(x, _) => eval_expr(x, env, f),
        CoreExpr::Unary(op, x) => {
            let v = eval_expr(x, env, f)?;
            unary_value(op.as_str(), v)
        },
        CoreExpr::Binary(op, l, r) => {
            let is_and = str_eq(op.as_str(), "&&");
            let is_or = str_eq(op.as_str(), "||");
            if is_and || is_or {
                match eval_expr(l, env, f)? {
                    Value::Bool(lb) => {
                        if lb == is_or {
                            return Ok(Value::Bool(lb));
                        }
                        match eval_expr(r, env, f)? {
                            Value::Bool(rb) => Ok(Value::Bool(rb)),
                            _ => Err(Error::new(crate::text::concat3("type mismatch: ", op.as_str(), " expects Bool").as_str())),
                        }
                    },
                    _ => Err(Error::new(crate::text::concat3("type mismatch: ", op.as_str(), " expects Bool").as_str())),
                }
            } else {
                let lv = eval_expr(l, env, f)?;
                let rv = eval_expr(r, env, f)?;
                binary_value(op.as_str(), lv, rv)
            }
        },
    }
}

/// Evaluates list items in order.
fn eval_items(items: &Vec<CoreExpr>, env: &Env, fuel: usize) -> (r: Result<Vec<Value>>)
    ensures
        match r {
            Ok(vs) => eval_list_spec(expr_list_view(items@), env@, fuel as nat) == Ok::<Seq<SpecValue>, EvalError>(values_view(vs@)),
            Err(e) => eval_list_spec(expr_list_view(items@), env@, fuel as nat) == Err::<Seq<SpecValue>, EvalError>((e.code_spec(), e.message_spec())),
        },
    decreases fuel, items@.len(),
{
    let ghost iv = expr_list_view(items@);
    proof {
        lemma_expr_list_view(items@);
    }
    let mut out: Vec<Value> = Vec::new();
    let mut i: usize = 0;
    assert(iv.skip(0) =~= iv);
    proof {
        lemma_values_view(out@);
    }
    while i < items.len()
        invariant
            i <= items@.len(),
            iv.len() == items@.len(),
            iv == expr_list_view(items@),
            forall|j: int| 0 <= j < items@.len() ==> #[trigger] iv[j] == items@[j]@,
            eval_list_spec(iv, env@, fuel as nat) == match eval_list_spec(iv.skip(i as int), env@, fuel as nat) {
                Ok(vs) => Ok(values_view(out@) + vs),
                Err(c) => Err::<Seq<SpecValue>, EvalError>(c),
            },
        decreases items.len() - i,
    {
        let ghost sub = iv.skip(i as int);
        assert(sub[0] == iv[i as int]);
        assert(sub.drop_first() =~= iv.skip(i + 1));
        let v = eval_expr(&items[i], env, fuel)?;
        let ghost prev = out@;
        out.push(v);
        proof {
            lemma_values_view(prev);
            lemma_values_view(out@);
            assert(values_view(out@) =~= values_view(prev).push(out@.last()@));
            match eval_list_spec(iv.skip(i + 1), env@, fuel as nat) {
                Ok(vs) => {
                    assert(values_view(prev) + (seq![out@.last()@] + vs) =~= values_view(out@) + vs);
                },
                Err(_) => {},
            }
        }
        i = i + 1;
    }
    assert(iv.skip(i as int) =~= Seq::<SpecExpr>::empty());
    assert(values_view(out@) + Seq::<SpecValue>::empty() =~= values_view(out@));
    Ok(out)
}

/// Evaluates record fields in order.
fn eval_fields(fields: &Vec<(String, CoreExpr)>, env: &Env, fuel: usize) -> (r: Result<Vec<(String, Value)>>)
    ensures
        match r {
            Ok(vs) => eval_fields_spec(expr_fields_view(fields@), env@, fuel as nat) == Ok::<Seq<(Seq<char>, SpecValue)>, EvalError>(value_fields_view(vs@)),
            Err(e) => eval_fields_spec(expr_fields_view(fields@), env@, fuel as nat) == Err::<Seq<(Seq<char>, SpecValue)>, EvalError>((e.code_spec(), e.message_spec())),
        },
    decreases fuel, fields@.len(),
{
    let ghost fv = expr_fields_view(fields@);
    proof {
        lemma_expr_fields_view(fields@);
    }
    let mut out: Vec<(String, Value)> = Vec::new();
    let mut i: usize = 0;
    assert(fv.skip(0) =~= fv);
    proof {
        lemma_value_fields_view(out@);
    }
    while i < fields.len()
        invariant
            i <= fields@.len(),
            fv.len() == fields@.len(),
            fv == expr_fields_view(fields@),
            forall|j: int| 0 <= j < fields@.len() ==> #[trigger] fv[j] == (fields@[j].0@, fields@[j].1@),
            eval_fields_spec(fv, env@, fuel as nat) == match eval_fields_spec(fv.skip(i as int), env@, fuel as nat) {
                Ok(vs) => Ok(value_fields_view(out@) + vs),
                Err(c) => Err::<Seq<(Seq<char>, SpecValue)>, EvalError>(c),
            },
        decreases fields.len() - i,
    {
        let ghost sub = fv.skip(i as int);
        assert(sub[0] == fv[i as int]);
        assert(sub.drop_first() =~= fv.skip(i + 1));
        let v = eval_expr(&fields[i].1, env, fuel)?;
        let ghost prev = out@;
        let ghost vv = v@;
        out.push((fields[i].0.clone(), v));
        proof {
            lemma_value_fields_view(prev);
            lemma_value_fields_view(out@);
            let item = (fv[i as int].0, vv);
            assert(value_fields_view(out@) =~= value_fields_view(prev).push(item));
            match eval_fields_spec(fv.skip(i + 1), env@, fuel as nat) {
                Ok(vs) => {
                    assert(value_fields_view(prev) + (seq![item] + vs) =~= value_fields_view(out@) + vs);
                },
                Err(_) => {},
            }
        }
        i = i + 1;
    }
    assert(fv.skip(i as int) =~= Seq::<(Seq<char>, SpecExpr)>::empty());
    assert(value_fields_view(out@) + Seq::<(Seq<char>, SpecValue)>::empty() =~= value_fields_view(out@));
    Ok(out)
}

/// Applies a function value to an argument.
pub fn apply_value(function: Value, arg: Value, fuel: usize) -> (r: Result<Value>)
    ensures
        vagrees(r, apply_spec(function@, arg@, fuel as nat)),
    decreases fuel, 0nat,
{
    if fuel == 0 {
        return Err(depth_error());
    }
    let f = fuel - 1;
    match function {
        Value::Closure { param, body, env } => {
            let mut inner = env;
            inner.bind(param, arg);
            eval_expr(&body, &inner, f)
        },
        Value::Native(native) => {
            let n = arity(native.name.as_str())?;
            let mut args = native.args;
            let ghost prev = args@;
            let ghost av = arg@;
            args.push(arg);
            proof {
                lemma_values_view(prev);
                lemma_values_view(args@);
                assert(values_view(args@) =~= values_view(prev).push(av));
            }
            if args.len() == n {
                call_native(native.name.as_str(), args, f)
            } else {
                Ok(Value::Native(NativeFunction { name: native.name, args }))
            }
        },
        _ => Err(Error::new("type mismatch: applying non-function")),
    }
}


/// Whether `n` occurs at position `i` of `h`.
#[verifier::loop_isolation(false)]
fn occurs_at(h: &Vec<char>, n: &Vec<char>, i: usize) -> (b: bool)
    requires
        i + n@.len() <= h@.len(),
    ensures
        b == (h@.subrange(i as int, i + n@.len()) == n@),
{
    let hl = h.len();
    let mut k: usize = 0;
    while k < n.len()
        invariant
            k <= n@.len(),
            hl == h@.len(),
            i + n@.len() <= h@.len(),
            forall|j: int| 0 <= j < k ==> h@[i + j] == n@[j],
        decreases n.len() - k,
    {
        if h[i + k] != n[k] {
            assert(h@.subrange(i as int, i + n@.len())[k as int] != n@[k as int]);
            return false;
        }
        k = k + 1;
    }
    assert(h@.subrange(i as int, i + n@.len()) =~= n@);
    true
}

/// Whether `needle` occurs in `hay`.
fn chars_contain(hay: &Vec<char>, needle: &Vec<char>) -> (b: bool)
    ensures
        b == seq_contains(hay@, needle@),
{
    if needle.len() > hay.len() {
        return false;
    }
    let last = hay.len() - needle.len();
    let mut i: usize = 0;
    loop
        invariant
            last == hay@.len() - needle@.len(),
            i <= last,
            forall|j: int| 0 <= j < i ==> #[trigger] hay@.subrange(j, j + needle@.len()) != needle@,
        decreases last - i,
    {
        if occurs_at(hay, needle, i) {
            return true;
        }
        if i == last {
            return false;
        }
        i = i + 1;
    }
}

/// Whether every item equals some item of the list is not asked: whether
/// some item equals `needle`.
#[verifier::loop_isolation(false)]
fn values_contain(items: &Vec<Value>, needle: &Value) -> (b: bool)
    ensures
        b == list_contains(values_view(items@), needle@),
{
    proof {
        lemma_values_view(items@);
    }
    let mut i: usize = 0;
    while i < items.len()
        invariant
            i <= items@.len(),
            values_view(items@).len() == items@.len(),
            forall|j: int| 0 <= j < i ==> !value_eq_spec(#[trigger] values_view(items@)[j], needle@),
        decreases items.len() - i,
    {
        if value_eq(&items[i], needle) {
            assert(value_eq_spec(values_view(items@)[i as int], needle@));
            return true;
        }
        i = i + 1;
    }
    false
}

/// Folds booleans with `&&` or `||`.
#[verifier::loop_isolation(false)]
fn fold_bools(items: &Vec<Value>, all: bool) -> (r: Result<bool>)
    ensures
        match r {
            Ok(b) => bools_fold(values_view(items@), all) == Ok::<bool, EvalError>(b),
            Err(e) => bools_fold(values_view(items@), all) == Err::<bool, EvalError>((e.code_spec(), e.message_spec()))
                && e.message_spec() == "type mismatch: expected a list of Bool"@,
        },
{
    let ghost iv = values_view(items@);
    proof {
        lemma_values_view(items@);
    }
    let mut acc = all;
    let mut i: usize = 0;
    assert(iv.skip(0) =~= iv);
    while i < items.len()
        invariant
            i <= items@.len(),
            iv == values_view(items@),
            iv.len() == items@.len(),
            bools_fold(iv, all) == match bools_fold(iv.skip(i as int), all) {
                Ok(r) => Ok(if all { acc && r } else { acc || r }),
                Err(c) => Err::<bool, EvalError>(c),
            },
        decreases items.len() - i,
    {
        assert(iv.skip(i as int)[0] == iv[i as int]);
        assert(iv.skip(i as int).drop_first() =~= iv.skip(i + 1));
        match &items[i] {
            Value::Bool(b) => {
                acc = if all { acc && *b } else { acc || *b };
            },
            _ => {
                return Err(Error::new("type mismatch: expected a list of Bool"));
            },
        }
        i = i + 1;
    }
    assert(iv.skip(i as int) =~= Seq::<SpecValue>::empty());
    Ok(acc)
}

/// Calls a native function with all its arguments.
fn call_native(name: &str, args: Vec<Value>, fuel: usize) -> (r: Result<Value>)
    ensures
        vagrees(r, call_spec(name@, values_view(args@), fuel as nat)),
        fuel > 0 && args@.len() != 1 && args@.len() != 2 ==> (r matches Err(e) && e.message_spec() == "type mismatch: invalid arguments to native `"@ + name@ + "`"@),
        fuel > 0 && args@.len() == 1 && !(name@ == "all"@ || name@ == "any"@) ==> (r matches Err(e) ==> e.message_spec() == "type mismatch: invalid arguments to native `"@ + name@ + "`"@),
    decreases fuel, 1nat,
{
    proof {
        lemma_values_view(args@);
    }
    if fuel == 0 {
        return Err(depth_error());
    }
    if args.len() == 1 {
        call_one(name, &args[0])
    } else if args.len() == 2 {
        call_two(name, &args[0], &args[1], fuel - 1)
    } else {
        Err(Error::new(crate::text::concat3("type mismatch: invalid arguments to native `", name, "`").as_str()))
    }
}

#[verifier::loop_isolation(false)]
fn call_one(name: &str, a: &Value) -> (r: Result<Value>)
    ensures
        vagrees(r, call_one_spec(name@, a@)),
        r matches Err(e) ==> if (name@ == "all"@ || name@ == "any"@) && a@ is List {
            e.message_spec() == "type mismatch: expected a list of Bool"@
        } else {
            e.message_spec() == "type mismatch: invalid arguments to native `"@ + name@ + "`"@
        },
{
    proof {
        reveal_strlit("show");
        reveal_strlit("length");
        reveal_strlit("isSome");
        reveal_strlit("isNone");
        reveal_strlit("all");
        reveal_strlit("any");
        assert("show"@[0] == 's' && "length"@[0] == 'l' && "isSome"@[0] == 'i' && "isNone"@[0] == 'i');
        assert("all"@[0] == 'a' && "any"@[0] == 'a');
    }
    let mismatch = crate::text::concat3("type mismatch: invalid arguments to native `", name, "`");
    if str_eq(name, "show") {
        match a {
            Value::Int(x) => Ok(Value::Str(int_to_string(*x))),
            Value::Float(t) => Ok(Value::Str(t.clone())),
            Value::Bool(b) => Ok(Value::Str(bool_to_string(*b))),
            Value::Str(s) => Ok(Value::Str(s.clone())),
            _ => Err(Error::new(mismatch.as_str())),
        }
    } else if str_eq(name, "length") {
        match a {
            Value::Str(s) => {
                let chars = crate::text::chars_of(s.as_str());
                Ok(Value::Int(chars.len() as i64))
            },
            Value::List(xs) => {
                proof {
                    lemma_values_view(xs@);
                }
                Ok(Value::Int(xs.len() as i64))
            },
            _ => Err(Error::new(mismatch.as_str())),
        }
    } else if str_eq(name, "isSome") || str_eq(name, "isNone") {
        match a {
            Value::OptSome(_) => Ok(Value::Bool(str_eq(name, "isSome"))),
            Value::OptNone => Ok(Value::Bool(str_eq(name, "isNone"))),
            _ => Err(Error::new(mismatch.as_str())),
        }
    } else if str_eq(name, "all") || str_eq(name, "any") {
        match a {
            Value::List(xs) => Ok(Value::Bool(fold_bools(xs, str_eq(name, "all"))?)),
            _ => Err(Error::new(mismatch.as_str())),
        }
    } else {
        Err(Error::new(mismatch.as_str()))
    }
}

fn call_two(name: &str, a: &Value, b: &Value, f: usize) -> (r: Result<Value>)
    ensures
        vagrees(r, call_two_spec(name@, a@, b@, f as nat)),
        !((name@ == "map"@ || name@ == "filter"@) && a@ is List) ==> (r matches Err(e) ==> e.message_spec() == "type mismatch: invalid arguments to native `"@ + name@ + "`"@),
    decreases f + 1, 0nat,
{
    proof {
        reveal_strlit("unwrapOr");
        reveal_strlit("contains");
        reveal_strlit("startsWith");
        reveal_strlit("endsWith");
        reveal_strlit("map");
        reveal_strlit("filter");
        assert("unwrapOr"@[0] == 'u' && "contains"@[0] == 'c' && "startsWith"@[0] == 's' && "endsWith"@[0] == 'e');
        assert("map"@[0] == 'm' && "filter"@[0] == 'f');
    }
    let mismatch = crate::text::concat3("type mismatch: invalid arguments to native `", name, "`");
    if str_eq(name, "unwrapOr") {
        match a {
            Value::OptNone => Ok(b.duplicate()),
            Value::OptSome(v) => Ok(v.duplicate()),
            _ => Err(Error::new(mismatch.as_str())),
        }
    } else if str_eq(name, "contains") {
        match (a, b) {
            (Value::Str(h), Value::Str(n)) => {
                let hc = crate::text::chars_of(h.as_str());
                let nc = crate::text::chars_of(n.as_str());
                Ok(Value::Bool(chars_contain(&hc, &nc)))
            },
            (Value::List(xs), needle) => Ok(Value::Bool(values_contain(xs, needle))),
            _ => Err(Error::new(mismatch.as_str())),
        }
    } else if str_eq(name, "startsWith") || str_eq(name, "endsWith") {
        match (a, b) {
            (Value::Str(s), Value::Str(p)) => {
                let sc = crate::text::chars_of(s.as_str());
                let pc = crate::text::chars_of(p.as_str());
                if pc.len() > sc.len() {
                    return Ok(Value::Bool(false));
                }
                let at = if str_eq(name, "startsWith") { 0 } else { sc.len() - pc.len() };
                let found = occurs_at(&sc, &pc, at);
                proof {
                    assert(sc@.take(pc@.len() as int) =~= sc@.subrange(0, pc@.len() as int));
                    assert(sc@.skip(sc@.len() - pc@.len()) =~= sc@.subrange(sc@.len() - pc@.len(), sc@.len() as int));
                }
                Ok(Value::Bool(found))
            },
            _ => Err(Error::new(mismatch.as_str())),
        }
    } else if str_eq(name, "map") || str_eq(name, "filter") {
        match a {
            Value::List(xs) => {
                let out = map_or_filter(xs, b, str_eq(name, "map"), f)?;
                Ok(Value::List(out))
            },
            _ => Err(Error::new(mismatch.as_str())),
        }
    } else {
        Err(Error::new(mismatch.as_str()))
    }
}

/// Applies `function` to each item: `map` keeps the results, `filter`
/// keeps the items for which it gives `true`.
fn map_or_filter(xs: &Vec<Value>, function: &Value, is_map: bool, f: usize) -> (r: Result<Vec<Value>>)
    ensures
        match r {
            Ok(vs) => (if is_map { map_spec(values_view(xs@), function@, f as nat) } else { filter_spec(values_view(xs@), function@, f as nat) })
                == Ok::<Seq<SpecValue>, EvalError>(values_view(vs@)),
            Err(e) => (if is_map { map_spec(values_view(xs@), function@, f as nat) } else { filter_spec(values_view(xs@), function@, f as nat) })
                == Err::<Seq<SpecValue>, EvalError>((e.code_spec(), e.message_spec())),
        },
    decreases f, 1nat,
{
    let ghost xv = values_view(xs@);
    let ghost fv = function@;
    proof {
        lemma_values_view(xs@);
    }
    let mut out: Vec<Value> = Vec::new();
    let mut i: usize = 0;
    assert(xv.skip(0) =~= xv);
    proof {
        lemma_values_view(out@);
    }
    while i < xs.len()
        invariant
            i <= xs@.len(),
            xv == values_view(xs@),
            xv.len() == xs@.len(),
            forall|j: int| 0 <= j < xs@.len() ==> #[trigger] xv[j] == xs@[j]@,
            fv == function@,
            is_map ==> map_spec(xv, fv, f as nat) == match map_spec(xv.skip(i as int), fv, f as nat) {
                Ok(vs) => Ok(values_view(out@) + vs),
                Err(c) => Err::<Seq<SpecValue>, EvalError>(c),
            },
            !is_map ==> filter_spec(xv, fv, f as nat) == match filter_spec(xv.skip(i as int), fv, f as nat) {
                Ok(vs) => Ok(values_view(out@) + vs),
                Err(c) => Err::<Seq<SpecValue>, EvalError>(c),
            },
        decreases xs.len() - i,
    {
        assert(xv.skip(i as int)[0] == xv[i as int]);
        assert(xv.skip(i as int).drop_first() =~= xv.skip(i + 1));
        let item = xs[i].duplicate();
        let result = apply_value(function.duplicate(), item, f)?;
        let ghost prev = out@;
        if is_map {
            let ghost rv = result@;
            out.push(result);
            proof {
                lemma_values_view(prev);
                lemma_values_view(out@);
                assert(values_view(out@) =~= values_view(prev).push(rv));
                match map_spec(xv.skip(i + 1), fv, f as nat) {
                    Ok(vs) => {
                        assert(values_view(prev) + (seq![rv] + vs) =~= values_view(out@) + vs);
                    },
                    Err(_) => {},
                }
            }
        } else {
            match result {
                Value::Bool(keep) => {
                    if keep {
                        out.push(xs[i].duplicate());
                        proof {
                            lemma_values_view(prev);
                            lemma_values_view(out@);
                            assert(values_view(out@) =~= values_view(prev).push(xv[i as int]));
                            match filter_spec(xv.skip(i + 1), fv, f as nat) {
                                Ok(vs) => {
                                    assert(values_view(prev) + (seq![xv[i as int]] + vs) =~= values_view(out@) + vs);
                                },
                                Err(_) => {},
                            }
                        }
                    }
                },
                _ => {
                    return Err(Error::new("type mismatch: filter predicate must return Bool"));
                },
            }
        }
        i = i + 1;
    }
    assert(xv.skip(i as int) =~= Seq::<SpecValue>::empty());
    assert(values_view(out@) + Seq::<SpecValue>::empty() =~= values_view(out@));
    Ok(out)
}

} // verus!
