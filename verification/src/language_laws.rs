//! What the language's operations mean, stated from their inputs and
//! results: the string natives, checking against literal unions, private
//! declarations and imports, string escapes, and the ReConf text of records
//! and lists.

use vstd::prelude::*;

use crate::core_lang::ast::{CoreDecl, CoreExpr, CoreType, SpecType};
use crate::emit::reconf::{reconf_fields_spec, reconf_items_spec, reconf_spec};
use crate::emit::json::{is_control, json_chars_spec, json_fields_spec, json_items_spec, json_spec, json_string_spec};
use crate::error::ErrorCode;
use crate::eval::interp::{apply_spec, bools_fold, call_one_spec, call_two_spec, eval_spec, map_spec, EvalResult, DEFAULT_DEPTH};
use crate::eval::value::value_eq_spec;
use crate::text::int_text;
use crate::eval::value::{lookup_name, SpecEnv, SpecValue};
use crate::resolve::modules::{decl_step, import_step, latest, let_value_spec, Module, SpecExport};
use crate::typeck::unify::expand_spec;
use crate::typeck::wf::{bound_aliases_spec, expr_aliases_spec, first_problem};
use crate::typeck::elaborate::unchecked_spec;
use crate::core_lang::ast::SpecExpr;
use crate::error::ByteRange;
use crate::syntax::lexer::{string_spec, SpecPart};
use crate::typeck::bidir::{after_expand, check_expr_spec, check_value_fields_spec, check_value_spec};
use crate::fields::{lemma_lookup_none, lookup};
use crate::typeck::elaborate::CodeResult;

verus! {

/// `startsWith s p` is true exactly when `p` is no longer than `s` and the
/// first characters of `s` are those of `p`; `endsWith s p` exactly when
/// `p` is no longer than `s` and the last characters of `s` are those of
/// `p`.
pub proof fn law_prefix_and_suffix_tests(s: Seq<char>, p: Seq<char>, fuel: nat)
    ensures
        call_two_spec("startsWith"@, SpecValue::Str(s), SpecValue::Str(p), fuel) == Ok::<SpecValue, crate::eval::interp::EvalError>(SpecValue::Bool(
            p.len() <= s.len() && forall|i: int| 0 <= i < p.len() ==> #[trigger] s[i] == p[i])),
        call_two_spec("endsWith"@, SpecValue::Str(s), SpecValue::Str(p), fuel) == Ok::<SpecValue, crate::eval::interp::EvalError>(SpecValue::Bool(
            p.len() <= s.len() && forall|i: int| 0 <= i < p.len() ==> s[s.len() - p.len() + i] == #[trigger] p[i])),
{
    reveal_strlit("startsWith");
    reveal_strlit("endsWith");
    reveal_strlit("unwrapOr");
    reveal_strlit("contains");
    assert("startsWith"@ != "unwrapOr"@ && "startsWith"@ != "contains"@) by {
        assert("startsWith"@[0] != "unwrapOr"@[0] && "startsWith"@[0] != "contains"@[0]);
    }
    assert("endsWith"@ != "unwrapOr"@ && "endsWith"@ != "contains"@ && "endsWith"@ != "startsWith"@) by {
        assert("endsWith"@[0] != "unwrapOr"@[0] && "endsWith"@[0] != "contains"@[0] && "endsWith"@[0] != "startsWith"@[0]);
    }
    if p.len() <= s.len() {
        assert((s.take(p.len() as int) == p) <==> (forall|i: int| 0 <= i < p.len() ==> #[trigger] s[i] == p[i])) by {
            if forall|i: int| 0 <= i < p.len() ==> #[trigger] s[i] == p[i] {
                assert(s.take(p.len() as int) =~= p);
            }
            if s.take(p.len() as int) == p {
                assert forall|i: int| 0 <= i < p.len() implies #[trigger] s[i] == p[i] by {
                    assert(s.take(p.len() as int)[i] == s[i]);
                }
            }
        }
        assert((s.skip(s.len() - p.len()) == p) <==> (forall|i: int| 0 <= i < p.len() ==> s[s.len() - p.len() + i] == #[trigger] p[i])) by {
            if forall|i: int| 0 <= i < p.len() ==> s[s.len() - p.len() + i] == #[trigger] p[i] {
                assert(s.skip(s.len() - p.len()) =~= p);
            }
            if s.skip(s.len() - p.len()) == p {
                assert forall|i: int| 0 <= i < p.len() implies s[s.len() - p.len() + i] == #[trigger] p[i] by {
                    assert(s.skip(s.len() - p.len())[i] == s[s.len() - p.len() + i]);
                }
            }
        }
    }
}

/// `length` counts the characters of a string and the items of a list;
/// `show` gives a string itself, an integer's decimal text and `true` or
/// `false`; `isSome` and `isNone` tell the two option forms apart.
pub proof fn law_length_show_and_option_tests(s: Seq<char>, xs: Seq<SpecValue>, n: i64, b: bool, x: SpecValue)
    ensures
        s.len() <= i64::MAX ==> (call_one_spec("length"@, SpecValue::Str(s)) matches Ok(SpecValue::Int(k)) && k == s.len()),
        xs.len() <= i64::MAX ==> (call_one_spec("length"@, SpecValue::List(xs)) matches Ok(SpecValue::Int(k)) && k == xs.len()),
        call_one_spec("show"@, SpecValue::Str(s)) == Ok::<SpecValue, crate::eval::interp::EvalError>(SpecValue::Str(s)),
        call_one_spec("show"@, SpecValue::Int(n)) == Ok::<SpecValue, crate::eval::interp::EvalError>(SpecValue::Str(int_text(n as int))),
        call_one_spec("show"@, SpecValue::Bool(b)) == Ok::<SpecValue, crate::eval::interp::EvalError>(SpecValue::Str(if b { "true"@ } else { "false"@ })),
        call_one_spec("isSome"@, SpecValue::OptSome(Box::new(x))) == Ok::<SpecValue, crate::eval::interp::EvalError>(SpecValue::Bool(true)),
        call_one_spec("isSome"@, SpecValue::OptNone) == Ok::<SpecValue, crate::eval::interp::EvalError>(SpecValue::Bool(false)),
        call_one_spec("isNone"@, SpecValue::OptSome(Box::new(x))) == Ok::<SpecValue, crate::eval::interp::EvalError>(SpecValue::Bool(false)),
        call_one_spec("isNone"@, SpecValue::OptNone) == Ok::<SpecValue, crate::eval::interp::EvalError>(SpecValue::Bool(true)),
{
    lemma_one_names();
}

proof fn lemma_one_names()
    ensures
        "show"@ != "length"@ && "show"@ != "isSome"@ && "show"@ != "isNone"@ && "show"@ != "all"@ && "show"@ != "any"@,
        "length"@ != "isSome"@ && "length"@ != "isNone"@ && "length"@ != "all"@ && "length"@ != "any"@,
        "isSome"@ != "isNone"@ && "isSome"@ != "all"@ && "isSome"@ != "any"@,
        "isNone"@ != "all"@ && "isNone"@ != "any"@ && "all"@ != "any"@,
{
    reveal_strlit("show");
    reveal_strlit("length");
    reveal_strlit("isSome");
    reveal_strlit("isNone");
    reveal_strlit("all");
    reveal_strlit("any");
    assert("show"@[0] == 's' && "length"@[0] == 'l' && "isSome"@[0] == 'i' && "isNone"@[0] == 'i' && "all"@[0] == 'a' && "any"@[0] == 'a');
    assert("isSome"@[2] != "isNone"@[2]);
    assert("all"@[1] != "any"@[1]);
}

proof fn lemma_two_names()
    ensures
        "unwrapOr"@ != "contains"@ && "unwrapOr"@ != "startsWith"@ && "unwrapOr"@ != "endsWith"@ && "unwrapOr"@ != "map"@,
        "contains"@ != "startsWith"@ && "contains"@ != "endsWith"@ && "contains"@ != "map"@,
        "map"@ != "startsWith"@ && "map"@ != "endsWith"@,
{
    reveal_strlit("unwrapOr");
    reveal_strlit("contains");
    reveal_strlit("startsWith");
    reveal_strlit("endsWith");
    reveal_strlit("map");
    assert("unwrapOr"@[0] == 'u' && "contains"@[0] == 'c' && "startsWith"@[0] == 's' && "endsWith"@[0] == 'e' && "map"@[0] == 'm');
}

/// Every item is a boolean: `all` folds them with `&&` and `any` with `||`.
proof fn lemma_bools_fold(xs: Seq<SpecValue>)
    requires
        forall|i: int| 0 <= i < xs.len() ==> #[trigger] xs[i] is Bool,
    ensures
        bools_fold(xs, true) == Ok::<bool, crate::eval::interp::EvalError>(forall|i: int| 0 <= i < xs.len() ==> #[trigger] xs[i] == SpecValue::Bool(true)),
        bools_fold(xs, false) == Ok::<bool, crate::eval::interp::EvalError>(exists|i: int| 0 <= i < xs.len() && #[trigger] xs[i] == SpecValue::Bool(true)),
    decreases xs.len(),
{
    if xs.len() > 0 {
        let t = xs.drop_first();
        assert forall|i: int| 0 <= i < t.len() implies #[trigger] t[i] is Bool by {
            assert(t[i] == xs[i + 1]);
        }
        lemma_bools_fold(t);
        let a = forall|i: int| 0 <= i < xs.len() ==> #[trigger] xs[i] == SpecValue::Bool(true);
        let a2 = forall|i: int| 0 <= i < t.len() ==> #[trigger] t[i] == SpecValue::Bool(true);
        assert(a == ((xs[0] == SpecValue::Bool(true)) && a2)) by {
            if (xs[0] == SpecValue::Bool(true)) && a2 {
                assert forall|i: int| 0 <= i < xs.len() implies #[trigger] xs[i] == SpecValue::Bool(true) by {
                    if i > 0 {
                        assert(xs[i] == t[i - 1]);
                    }
                }
            }
            if a {
                assert forall|i: int| 0 <= i < t.len() implies #[trigger] t[i] == SpecValue::Bool(true) by {
                    assert(t[i] == xs[i + 1]);
                }
            }
        }
        let e = exists|i: int| 0 <= i < xs.len() && #[trigger] xs[i] == SpecValue::Bool(true);
        let e2 = exists|i: int| 0 <= i < t.len() && #[trigger] t[i] == SpecValue::Bool(true);
        assert(e == ((xs[0] == SpecValue::Bool(true)) || e2)) by {
            if e2 {
                let i = choose|i: int| 0 <= i < t.len() && #[trigger] t[i] == SpecValue::Bool(true);
                assert(xs[i + 1] == t[i]);
            }
            if e {
                let i = choose|i: int| 0 <= i < xs.len() && #[trigger] xs[i] == SpecValue::Bool(true);
                if i > 0 {
                    assert(t[i - 1] == xs[i]);
                }
            }
        }
    }
}

/// `all` of a list of booleans is true exactly when every item is `true`,
/// and `any` exactly when some item is; a list holding anything else is
/// refused by both.
pub proof fn law_all_and_any(xs: Seq<SpecValue>)
    ensures
        (forall|i: int| 0 <= i < xs.len() ==> #[trigger] xs[i] is Bool) ==> {
            &&& call_one_spec("all"@, SpecValue::List(xs)) == Ok::<SpecValue, crate::eval::interp::EvalError>(SpecValue::Bool(
                forall|i: int| 0 <= i < xs.len() ==> #[trigger] xs[i] == SpecValue::Bool(true)))
            &&& call_one_spec("any"@, SpecValue::List(xs)) == Ok::<SpecValue, crate::eval::interp::EvalError>(SpecValue::Bool(
                exists|i: int| 0 <= i < xs.len() && #[trigger] xs[i] == SpecValue::Bool(true)))
        },
        (exists|i: int| 0 <= i < xs.len() && !(#[trigger] xs[i] is Bool)) ==> call_one_spec("all"@, SpecValue::List(xs)) is Err
            && call_one_spec("any"@, SpecValue::List(xs)) is Err,
{
    lemma_one_names();
    if forall|i: int| 0 <= i < xs.len() ==> #[trigger] xs[i] is Bool {
        lemma_bools_fold(xs);
    } else {
        lemma_bools_fold_refuses(xs, true);
        lemma_bools_fold_refuses(xs, false);
    }
}

proof fn lemma_bools_fold_refuses(xs: Seq<SpecValue>, all: bool)
    requires
        exists|i: int| 0 <= i < xs.len() && !(#[trigger] xs[i] is Bool),
    ensures
        bools_fold(xs, all) is Err,
    decreases xs.len(),
{
    if xs[0] is Bool {
        let i = choose|i: int| 0 <= i < xs.len() && !(#[trigger] xs[i] is Bool);
        let t = xs.drop_first();
        assert(t[i - 1] == xs[i]);
        lemma_bools_fold_refuses(t, all);
    }
}

/// `p` occurs in `h` from position `i`, character by character.
pub open spec fn occurs_at(h: Seq<char>, p: Seq<char>, i: int) -> bool {
    0 <= i && i + p.len() <= h.len() && forall|j: int| 0 <= j < p.len() ==> #[trigger] h[i + j] == p[j]
}

/// `unwrapOr` gives what an option holds, or the default for `none`;
/// `contains` on strings tells whether the needle occurs at some position,
/// and on lists whether some item equals the needle.
pub proof fn law_unwrap_and_contains(x: SpecValue, d: SpecValue, h: Seq<char>, p: Seq<char>, xs: Seq<SpecValue>, fuel: nat)
    ensures
        call_two_spec("unwrapOr"@, SpecValue::OptSome(Box::new(x)), d, fuel) == Ok::<SpecValue, crate::eval::interp::EvalError>(x),
        call_two_spec("unwrapOr"@, SpecValue::OptNone, d, fuel) == Ok::<SpecValue, crate::eval::interp::EvalError>(d),
        call_two_spec("contains"@, SpecValue::Str(h), SpecValue::Str(p), fuel) == Ok::<SpecValue, crate::eval::interp::EvalError>(SpecValue::Bool(
            exists|i: int| #[trigger] occurs_at(h, p, i))),
        call_two_spec("contains"@, SpecValue::List(xs), d, fuel) == Ok::<SpecValue, crate::eval::interp::EvalError>(SpecValue::Bool(
            exists|i: int| 0 <= i < xs.len() && value_eq_spec(#[trigger] xs[i], d))),
{
    lemma_two_names();
    let a = exists|i: int| 0 <= i && i + p.len() <= h.len() && #[trigger] h.subrange(i, i + p.len()) == p;
    let b = exists|i: int| #[trigger] occurs_at(h, p, i);
    assert(a == b) by {
        if a {
            let i = choose|i: int| 0 <= i && i + p.len() <= h.len() && #[trigger] h.subrange(i, i + p.len()) == p;
            assert forall|j: int| 0 <= j < p.len() implies #[trigger] h[i + j] == p[j] by {
                assert(h.subrange(i, i + p.len())[j] == h[i + j]);
            }
            assert(occurs_at(h, p, i));
        }
        if b {
            let i = choose|i: int| #[trigger] occurs_at(h, p, i);
            assert(h.subrange(i, i + p.len()) =~= p) by {
                assert forall|j: int| 0 <= j < p.len() implies h.subrange(i, i + p.len())[j] == p[j] by {
                    assert(h[i + j] == p[j]);
                }
            }
        }
    }
}

/// `map` applies the function to each item, in order, and gives a list of
/// the same length, when every application succeeds.
pub proof fn law_map_applies_in_order(xs: Seq<SpecValue>, f: SpecValue, fuel: nat)
    requires
        forall|i: int| 0 <= i < xs.len() ==> #[trigger] apply_spec(f, xs[i], fuel) is Ok,
    ensures
        call_two_spec("map"@, SpecValue::List(xs), f, fuel) matches Ok(SpecValue::List(ys)) && ys.len() == xs.len()
            && forall|i: int| 0 <= i < xs.len() ==> Ok::<SpecValue, crate::eval::interp::EvalError>(#[trigger] ys[i]) == apply_spec(f, xs[i], fuel),
{
    lemma_two_names();
    lemma_map(xs, f, fuel);
}

proof fn lemma_map(xs: Seq<SpecValue>, f: SpecValue, fuel: nat)
    requires
        forall|i: int| 0 <= i < xs.len() ==> #[trigger] apply_spec(f, xs[i], fuel) is Ok,
    ensures
        map_spec(xs, f, fuel) matches Ok(ys) && ys.len() == xs.len()
            && forall|i: int| 0 <= i < xs.len() ==> Ok::<SpecValue, crate::eval::interp::EvalError>(#[trigger] ys[i]) == apply_spec(f, xs[i], fuel),
    decreases xs.len(),
{
    if xs.len() > 0 {
        let t = xs.drop_first();
        assert forall|i: int| 0 <= i < t.len() implies #[trigger] apply_spec(f, t[i], fuel) is Ok by {
            assert(t[i] == xs[i + 1]);
        }
        lemma_map(t, f, fuel);
        assert(apply_spec(f, xs[0], fuel) is Ok);
        let ys = map_spec(xs, f, fuel)->Ok_0;
        let rest = map_spec(t, f, fuel)->Ok_0;
        assert forall|i: int| 0 <= i < xs.len() implies Ok::<SpecValue, crate::eval::interp::EvalError>(#[trigger] ys[i]) == apply_spec(f, xs[i], fuel) by {
            if i > 0 {
                assert(ys[i] == rest[i - 1]);
                assert(xs[i] == t[i - 1]);
            }
        }
    }
}

/// A string checked against a literal union is accepted, unchanged, exactly
/// when it is one of the union's literals, and refused otherwise; a value
/// that is not a string is always refused.
pub proof fn law_literal_union_membership(v: SpecValue, names: Seq<Seq<char>>, env: SpecEnv)
    ensures
        v matches SpecValue::Str(s) ==> ((exists|i: int| 0 <= i < names.len() && #[trigger] names[i] == s)
            <==> check_value_spec(v, SpecType::LiteralUnion(names), env) is Ok),
        v matches SpecValue::Str(s) ==> (check_value_spec(v, SpecType::LiteralUnion(names), env) matches Ok(w) ==> w == v),
        !(v is Str) ==> check_value_spec(v, SpecType::LiteralUnion(names), env) is Err,
        (forall|i: int| 0 <= i < names.len() ==> #[trigger] names[i] != v->Str_0) && v is Str
            ==> check_value_spec(v, SpecType::LiteralUnion(names), env) == Err::<SpecValue, ErrorCode>(ErrorCode::TypeMismatch),
{
}

/// Checking against a primitive type accepts a value of that type, unchanged
/// (an integer also for `Float`), and refuses any other value; a value that
/// is not a record is refused by a record type.
pub proof fn law_primitive_and_record_shapes(v: SpecValue, fields: Seq<(Seq<char>, SpecType)>, env: SpecEnv)
    ensures
        (check_value_spec(v, SpecType::Int, env) is Ok <==> v is Int),
        (check_value_spec(v, SpecType::Bool, env) is Ok <==> v is Bool),
        (check_value_spec(v, SpecType::Str, env) is Ok <==> v is Str),
        (check_value_spec(v, SpecType::Float, env) is Ok <==> (v is Float || v is Int)),
        check_value_spec(v, SpecType::Int, env) matches Ok(w) ==> w == v,
        check_value_spec(v, SpecType::Bool, env) matches Ok(w) ==> w == v,
        check_value_spec(v, SpecType::Str, env) matches Ok(w) ==> w == v,
        !(v is Record) ==> check_value_spec(v, SpecType::Record(fields), env) == Err::<SpecValue, ErrorCode>(ErrorCode::TypeMismatch),
{
}

/// A record value with a field its record type does not declare is refused
/// as an unknown field; one that leaves out a declared field that is not
/// optional is refused.
pub proof fn law_record_fields_checked(vs: Seq<(Seq<char>, SpecValue)>, fields: Seq<(Seq<char>, SpecType)>, env: SpecEnv)
    ensures
        (exists|j: int| 0 <= j < vs.len() && forall|k: int| 0 <= k < fields.len() ==> #[trigger] fields[k].0 != #[trigger] vs[j].0)
            ==> check_value_spec(SpecValue::Record(vs), SpecType::Record(fields), env) == Err::<SpecValue, ErrorCode>(ErrorCode::RecordUnknownField),
        (exists|i: int| 0 <= i < fields.len() && !(#[trigger] fields[i].1 is Option) && forall|j: int| 0 <= j < vs.len() ==> #[trigger] vs[j].0 != fields[i].0)
            ==> check_value_spec(SpecValue::Record(vs), SpecType::Record(fields), env) is Err,
{
    if exists|j: int| 0 <= j < vs.len() && forall|k: int| 0 <= k < fields.len() ==> #[trigger] fields[k].0 != #[trigger] vs[j].0 {
        let j = choose|j: int| 0 <= j < vs.len() && forall|k: int| 0 <= k < fields.len() ==> #[trigger] fields[k].0 != #[trigger] vs[j].0;
        lemma_lookup_none(fields, vs[j].0);
        assert(crate::typeck::bidir::unknown_field(vs, fields));
    }
    if exists|i: int| 0 <= i < fields.len() && !(#[trigger] fields[i].1 is Option) && forall|j: int| 0 <= j < vs.len() ==> #[trigger] vs[j].0 != fields[i].0 {
        let i = choose|i: int| 0 <= i < fields.len() && !(#[trigger] fields[i].1 is Option) && forall|j: int| 0 <= j < vs.len() ==> #[trigger] vs[j].0 != fields[i].0;
        lemma_missing_field(vs, fields, env, i);
    }
}

proof fn lemma_missing_field(vs: Seq<(Seq<char>, SpecValue)>, fields: Seq<(Seq<char>, SpecType)>, env: SpecEnv, i: int)
    requires
        0 <= i < fields.len(),
        !(fields[i].1 is Option),
        forall|j: int| 0 <= j < vs.len() ==> #[trigger] vs[j].0 != fields[i].0,
    ensures
        check_value_fields_spec(vs, fields, env) is Err,
    decreases i,
{
    if i == 0 {
        lemma_lookup_none(vs, fields[0].0);
    } else {
        let t = fields.drop_first();
        assert(t[i - 1] == fields[i]);
        lemma_missing_field(vs, t, env, i - 1);
    }
}

/// A `let` of a string literal whose annotation names a literal union
/// (directly or through aliases) binds the string exactly when it is one of
/// the union's literals, and is refused otherwise.
pub proof fn law_let_checks_literal_union(m: Module, t: SpecType, names: Seq<Seq<char>>, s: Seq<char>, sp: ByteRange)
    requires
        bound_aliases_spec(m.type_env(), t) is None,
        expand_spec(m.type_env(), t, Seq::empty()) == Ok::<SpecType, ErrorCode>(SpecType::LiteralUnion(names)),
    ensures
        (exists|i: int| 0 <= i < names.len() && #[trigger] names[i] == s)
            <==> let_value_spec(m, Some(t), SpecExpr::Spanned(Box::new(SpecExpr::Str(s)), sp)) is Ok,
        let_value_spec(m, Some(t), SpecExpr::Spanned(Box::new(SpecExpr::Str(s)), sp)) matches Ok(w) ==> w == SpecValue::Str(s),
{
    let e = SpecExpr::Spanned(Box::new(SpecExpr::Str(s)), sp);
    assert(expr_aliases_spec(m.type_env(), SpecExpr::Str(s)) is None);
    assert(expr_aliases_spec(m.type_env(), e) is None);
    assert(unchecked_spec(SpecExpr::Str(s)) == Ok::<SpecExpr, ErrorCode>(SpecExpr::Str(s)));
    assert(unchecked_spec(e) == Ok::<SpecExpr, ErrorCode>(e));
    assert(eval_spec(SpecExpr::Str(s), m.env_model(), DEFAULT_DEPTH as nat) == Ok::<SpecValue, crate::eval::interp::EvalError>(SpecValue::Str(s)));
    let lu = SpecType::LiteralUnion(names);
    let env = m.env_model();
    assert(check_expr_spec(SpecExpr::Str(s), lu, env) == check_value_spec(SpecValue::Str(s), lu, env));
    assert(check_expr_spec(e, lu, env) == check_value_spec(SpecValue::Str(s), lu, env));
    assert(first_problem(bound_aliases_spec(m.type_env(), t), expr_aliases_spec(m.type_env(), e)) is None);
    assert(let_value_spec(m, Some(t), e) == after_expand(expand_spec(m.type_env(), t, Seq::empty()), |et: SpecType| check_expr_spec(e, et, env)));
    assert(let_value_spec(m, Some(t), e) == check_value_spec(SpecValue::Str(s), lu, env));
    law_literal_union_membership(SpecValue::Str(s), names, env);
}

/// A `let` that is not exported leaves the module's exports as they were,
/// so a name the module had never exported cannot be imported from it; an
/// exported `let` adds its name and value as the latest export.
pub proof fn law_private_let_is_not_importable(
    lib: Module,
    export: bool,
    name: String,
    annotation: Option<CoreType>,
    expr: CoreExpr,
    lib2: Module,
    m: Module,
    r: CodeResult<()>,
    m2: Module,
)
    requires
        decl_step(lib, CoreDecl::Let { export, name, annotation, expr }, Ok(()), lib2),
    ensures
        !export ==> lib2.exports_model() == lib.exports_model(),
        export ==> (lookup_name(lib2.values_model(), name@) matches Some(v) && latest(lib2.exports_model(), name@) == Some(SpecExport::Value(v))),
        !export && latest(lib.exports_model(), name@) is None && lookup_name(m.values_model(), name@) is None
            && m.type_env().named(name@) is None && import_step(m, lib2, name@, r, m2)
            ==> r == Err::<(), ErrorCode>(ErrorCode::ModuleUnexportedImport),
{
}

/// In a string literal an escape stands for one character: `\n` for the
/// line feed (code 10), `\t` for the tab (9), `\r` for the carriage return
/// (13), `\"` for the quote, `\\` for the backslash, and `\{`, `\}` for
/// the braces. Lexing goes on after
/// the escape with that character added to the pending text.
pub proof fn law_string_escapes(b: Seq<u8>, start: int, pos: int, text: Seq<char>, parts: Seq<SpecPart>, c: u8, code: u32)
    requires
        0 <= pos,
        pos + 1 < b.len(),
        b[pos] == 92,
        b[pos + 1] == c,
        (c == 110 && code == 10) || (c == 116 && code == 9) || (c == 114 && code == 13) || (c == 34 && code == 34)
            || (c == 92 && code == 92) || (c == 123 && code == 123) || (c == 125 && code == 125),
    ensures
        exists|d: char| d as u32 == code && string_spec(b, start, pos, text, parts) == string_spec(b, start, pos + 2, text.push(d), parts),
{
    let d: char = if c == 110 { '\n' } else if c == 116 { '\t' } else if c == 114 { '\r' } else if c == 34 { '"' } else if c == 123 { '{' } else if c == 125 { '}' } else { '\\' };
    assert(d as u32 == code);
    assert(string_spec(b, start, pos, text, parts) == string_spec(b, start, pos + 2, text.push(d), parts));
}

/// Inside a string literal any other character stands for itself, the
/// closing quote ends the literal with the pending text as its last part, a
/// line break before it leaves the literal unterminated, and a backslash
/// before a character that is no escape is refused.
pub proof fn law_string_characters(b: Seq<u8>, start: int, pos: int, text: Seq<char>, parts: Seq<SpecPart>)
    requires
        0 <= pos < b.len(),
    ensures
        b[pos] != 34 && b[pos] != 92 && b[pos] != 123 && b[pos] != 10 && b[pos] != 13
            ==> string_spec(b, start, pos, text, parts) == string_spec(b, start, pos + 1, text.push(b[pos] as char), parts),
        b[pos] == 34 && text.len() > 0 ==> string_spec(b, start, pos, text, parts)
            == Ok::<(Seq<SpecPart>, int), crate::syntax::lexer::SpecLexError>((parts.push(SpecPart::Text(text)), pos + 1)),
        b[pos] == 34 && text.len() == 0 ==> string_spec(b, start, pos, text, parts)
            == Ok::<(Seq<SpecPart>, int), crate::syntax::lexer::SpecLexError>((parts, pos + 1)),
        b[pos] == 10 || b[pos] == 13 ==> string_spec(b, start, pos, text, parts) is Err,
        b[pos] == 92 && pos + 1 < b.len() && !(b[pos + 1] == 34 || b[pos + 1] == 92 || b[pos + 1] == 110 || b[pos + 1] == 114
            || b[pos + 1] == 116 || b[pos + 1] == 123 || b[pos + 1] == 125)
            ==> (string_spec(b, start, pos, text, parts) matches Err(e) && e.code == "E_PARSE_005"@),
{
}

/// A type declaration that is not exported leaves the module's exports as
/// they were; an exported one makes the type the latest export of its name.
pub proof fn law_private_type_is_not_exported(lib: Module, export: bool, name: String, ty: CoreType, lib2: Module)
    requires
        decl_step(lib, CoreDecl::Type { export, name, ty }, Ok(()), lib2),
    ensures
        !export ==> lib2.exports_model() == lib.exports_model(),
        export ==> latest(lib2.exports_model(), name@) == Some(SpecExport::Type(ty@)),
        lib2.type_env().named(name@) == Some(ty@),
{
}

proof fn lemma_fields_push(fs: Seq<(Seq<char>, SpecValue)>, f: (Seq<char>, SpecValue), index: nat)
    ensures
        reconf_fields_spec(fs.push(f), index) == reconf_fields_spec(fs, index)
            + (if index + fs.len() > 0 { ", "@ } else { ""@ }) + f.0 + " = "@ + reconf_spec(f.1),
    decreases fs.len(),
{
    if fs.len() == 0 {
        assert(fs.push(f).drop_first() =~= Seq::<(Seq<char>, SpecValue)>::empty());
        assert(reconf_fields_spec(fs.push(f).drop_first(), index + 1) == Seq::<char>::empty());
    } else {
        assert(fs.push(f).drop_first() =~= fs.drop_first().push(f));
        lemma_fields_push(fs.drop_first(), f, index + 1);
    }
    assert(reconf_fields_spec(fs.push(f), index) =~= reconf_fields_spec(fs, index)
        + (if index + fs.len() > 0 { ", "@ } else { ""@ }) + f.0 + " = "@ + reconf_spec(f.1));
}

proof fn lemma_items_push(xs: Seq<SpecValue>, x: SpecValue, index: nat)
    ensures
        reconf_items_spec(xs.push(x), index) == reconf_items_spec(xs, index)
            + (if index + xs.len() > 0 { ", "@ } else { ""@ }) + reconf_spec(x),
    decreases xs.len(),
{
    if xs.len() == 0 {
        assert(xs.push(x).drop_first() =~= Seq::<SpecValue>::empty());
        assert(reconf_items_spec(xs.push(x).drop_first(), index + 1) == Seq::<char>::empty());
    } else {
        assert(xs.push(x).drop_first() =~= xs.drop_first().push(x));
        lemma_items_push(xs.drop_first(), x, index + 1);
    }
    assert(reconf_items_spec(xs.push(x), index) =~= reconf_items_spec(xs, index)
        + (if index + xs.len() > 0 { ", "@ } else { ""@ }) + reconf_spec(x));
}

/// The ReConf text of a record is `{ `, its `name = value` fields joined by
/// `, `, then ` }`: a record of one field reads `{ name = value }`, and one
/// more field adds `, name = value` before the closing ` }`. Likewise a
/// list is `[`, its items joined by `, `, then `]`.
pub proof fn law_record_and_list_text(fs: Seq<(Seq<char>, SpecValue)>, n: Seq<char>, v: SpecValue, xs: Seq<SpecValue>)
    ensures
        reconf_spec(SpecValue::Record(seq![(n, v)])) == "{ "@ + n + " = "@ + reconf_spec(v) + " }"@,
        fs.len() > 0 ==> reconf_spec(SpecValue::Record(fs.push((n, v))))
            == reconf_spec(SpecValue::Record(fs)).take(reconf_spec(SpecValue::Record(fs)).len() - 2) + ", "@ + n + " = "@ + reconf_spec(v) + " }"@,
        reconf_spec(SpecValue::List(seq![v])) == "["@ + reconf_spec(v) + "]"@,
        xs.len() > 0 ==> reconf_spec(SpecValue::List(xs.push(v)))
            == reconf_spec(SpecValue::List(xs)).take(reconf_spec(SpecValue::List(xs)).len() - 1) + ", "@ + reconf_spec(v) + "]"@,
{
    reveal_strlit(" }");
    reveal_strlit("]");
    reveal_strlit("");
    let empty_fields = Seq::<(Seq<char>, SpecValue)>::empty();
    lemma_fields_push(empty_fields, (n, v), 0);
    assert(empty_fields.push((n, v)) =~= seq![(n, v)]);
    assert(reconf_fields_spec(empty_fields, 0) == Seq::<char>::empty());
    assert(reconf_spec(SpecValue::Record(seq![(n, v)])) =~= "{ "@ + n + " = "@ + reconf_spec(v) + " }"@);
    let empty_items = Seq::<SpecValue>::empty();
    lemma_items_push(empty_items, v, 0);
    assert(empty_items.push(v) =~= seq![v]);
    assert(reconf_items_spec(empty_items, 0) == Seq::<char>::empty());
    assert(reconf_spec(SpecValue::List(seq![v])) =~= "["@ + reconf_spec(v) + "]"@);
    if fs.len() > 0 {
        lemma_fields_push(fs, (n, v), 0);
        let whole = reconf_spec(SpecValue::Record(fs));
        assert(whole.take(whole.len() - 2) =~= "{ "@ + reconf_fields_spec(fs, 0));
        assert(reconf_spec(SpecValue::Record(fs.push((n, v)))) =~= whole.take(whole.len() - 2) + ", "@ + n + " = "@ + reconf_spec(v) + " }"@);
    }
    if xs.len() > 0 {
        lemma_items_push(xs, v, 0);
        let whole = reconf_spec(SpecValue::List(xs));
        assert(whole.take(whole.len() - 1) =~= "["@ + reconf_items_spec(xs, 0));
        assert(reconf_spec(SpecValue::List(xs.push(v))) =~= whole.take(whole.len() - 1) + ", "@ + reconf_spec(v) + "]"@);
    }
}

proof fn lemma_json_fields_push(fs: Seq<(Seq<char>, SpecValue)>, f: (Seq<char>, SpecValue), pretty: bool, pad: Seq<char>, index: nat)
    ensures
        json_fields_spec(fs.push(f), pretty, pad, index) == json_fields_spec(fs, pretty, pad, index)
            + crate::emit::json::json_sep(index + fs.len(), pretty, pad) + json_string_spec(f.0) + seq![':']
            + (if pretty { seq![' '] } else { Seq::empty() }) + json_spec(f.1, pretty, pad + seq![' ', ' ']),
    decreases fs.len(),
{
    if fs.len() == 0 {
        assert(fs.push(f).drop_first() =~= Seq::<(Seq<char>, SpecValue)>::empty());
        assert(json_fields_spec(fs.push(f).drop_first(), pretty, pad, index + 1) == Seq::<char>::empty());
        assert(json_fields_spec(fs, pretty, pad, index) == Seq::<char>::empty());
        assert(fs.push(f)[0] == f);
    } else {
        assert(fs.push(f).drop_first() =~= fs.drop_first().push(f));
        assert(fs.push(f)[0] == fs[0]);
        lemma_json_fields_push(fs.drop_first(), f, pretty, pad, index + 1);
    }
    assert(json_fields_spec(fs.push(f), pretty, pad, index) =~= json_fields_spec(fs, pretty, pad, index)
        + crate::emit::json::json_sep(index + fs.len(), pretty, pad) + json_string_spec(f.0) + seq![':']
        + (if pretty { seq![' '] } else { Seq::empty() }) + json_spec(f.1, pretty, pad + seq![' ', ' ']));
}

proof fn lemma_json_items_push(xs: Seq<SpecValue>, x: SpecValue, pretty: bool, pad: Seq<char>, index: nat)
    ensures
        json_items_spec(xs.push(x), pretty, pad, index) == json_items_spec(xs, pretty, pad, index)
            + crate::emit::json::json_sep(index + xs.len(), pretty, pad) + json_spec(x, pretty, pad + seq![' ', ' ']),
    decreases xs.len(),
{
    if xs.len() == 0 {
        assert(xs.push(x).drop_first() =~= Seq::<SpecValue>::empty());
        assert(json_items_spec(xs.push(x).drop_first(), pretty, pad, index + 1) == Seq::<char>::empty());
        assert(json_items_spec(xs, pretty, pad, index) == Seq::<char>::empty());
        assert(xs.push(x)[0] == x);
    } else {
        assert(xs.push(x).drop_first() =~= xs.drop_first().push(x));
        assert(xs.push(x)[0] == xs[0]);
        lemma_json_items_push(xs.drop_first(), x, pretty, pad, index + 1);
    }
    assert(json_items_spec(xs.push(x), pretty, pad, index) =~= json_items_spec(xs, pretty, pad, index)
        + crate::emit::json::json_sep(index + xs.len(), pretty, pad) + json_spec(x, pretty, pad + seq![' ', ' ']));
}

/// Compact JSON writes an object as `{`, its `"name":value` members joined
/// by `,`, then `}`, and an array as `[`, its items joined by `,`, then `]`:
/// one more member or item adds `,` and it before the closing bracket.
pub proof fn law_compact_json_text(fs: Seq<(Seq<char>, SpecValue)>, n: Seq<char>, v: SpecValue, xs: Seq<SpecValue>, pad: Seq<char>)
    ensures
        json_spec(SpecValue::Record(seq![(n, v)]), false, pad)
            == seq!['{'] + json_string_spec(n) + seq![':'] + json_spec(v, false, pad + seq![' ', ' ']) + seq!['}'],
        fs.len() > 0 ==> json_spec(SpecValue::Record(fs.push((n, v))), false, pad)
            == json_spec(SpecValue::Record(fs), false, pad).drop_last() + seq![','] + json_string_spec(n) + seq![':']
                + json_spec(v, false, pad + seq![' ', ' ']) + seq!['}'],
        json_spec(SpecValue::List(seq![v]), false, pad) == seq!['['] + json_spec(v, false, pad + seq![' ', ' ']) + seq![']'],
        xs.len() > 0 ==> json_spec(SpecValue::List(xs.push(v)), false, pad)
            == json_spec(SpecValue::List(xs), false, pad).drop_last() + seq![','] + json_spec(v, false, pad + seq![' ', ' ']) + seq![']'],
{
    let ef = Seq::<(Seq<char>, SpecValue)>::empty();
    lemma_json_fields_push(ef, (n, v), false, pad, 0);
    assert(ef.push((n, v)) =~= seq![(n, v)]);
    assert(json_spec(SpecValue::Record(seq![(n, v)]), false, pad)
        =~= seq!['{'] + json_string_spec(n) + seq![':'] + json_spec(v, false, pad + seq![' ', ' ']) + seq!['}']);
    let ei = Seq::<SpecValue>::empty();
    lemma_json_items_push(ei, v, false, pad, 0);
    assert(ei.push(v) =~= seq![v]);
    assert(json_spec(SpecValue::List(seq![v]), false, pad) =~= seq!['['] + json_spec(v, false, pad + seq![' ', ' ']) + seq![']']);
    if fs.len() > 0 {
        lemma_json_fields_push(fs, (n, v), false, pad, 0);
        assert(json_spec(SpecValue::Record(fs), false, pad).drop_last() =~= seq!['{'] + json_fields_spec(fs, false, pad, 0));
        assert(json_spec(SpecValue::Record(fs.push((n, v))), false, pad)
            =~= json_spec(SpecValue::Record(fs), false, pad).drop_last() + seq![','] + json_string_spec(n) + seq![':']
                + json_spec(v, false, pad + seq![' ', ' ']) + seq!['}']);
    }
    if xs.len() > 0 {
        lemma_json_items_push(xs, v, false, pad, 0);
        assert(json_spec(SpecValue::List(xs), false, pad).drop_last() =~= seq!['['] + json_items_spec(xs, false, pad, 0));
        assert(json_spec(SpecValue::List(xs.push(v)), false, pad)
            =~= json_spec(SpecValue::List(xs), false, pad).drop_last() + seq![','] + json_spec(v, false, pad + seq![' ', ' ']) + seq![']']);
    }
}

/// Pretty JSON puts each member of an object on a line of its own,
/// indented one level (two spaces) deeper than the object, as `"name": value`,
/// with `,` after every member but the last, and the closing `}` on a line
/// at the object's own indentation.
pub proof fn law_pretty_json_object(fs: Seq<(Seq<char>, SpecValue)>, n: Seq<char>, v: SpecValue, pad: Seq<char>)
    ensures
        json_spec(SpecValue::Record(seq![(n, v)]), true, pad)
            == seq!['{', '\n'] + pad + seq![' ', ' '] + json_string_spec(n) + seq![':', ' '] + json_spec(v, true, pad + seq![' ', ' '])
                + seq!['\n'] + pad + seq!['}'],
        fs.len() > 0 ==> json_spec(SpecValue::Record(fs.push((n, v))), true, pad)
            == json_spec(SpecValue::Record(fs), true, pad).take(json_spec(SpecValue::Record(fs), true, pad).len() - pad.len() - 2)
                + seq![',', '\n'] + pad + seq![' ', ' '] + json_string_spec(n) + seq![':', ' '] + json_spec(v, true, pad + seq![' ', ' '])
                + seq!['\n'] + pad + seq!['}'],
{
    let ef = Seq::<(Seq<char>, SpecValue)>::empty();
    lemma_json_fields_push(ef, (n, v), true, pad, 0);
    assert(ef.push((n, v)) =~= seq![(n, v)]);
    assert(json_spec(SpecValue::Record(seq![(n, v)]), true, pad)
        =~= seq!['{', '\n'] + pad + seq![' ', ' '] + json_string_spec(n) + seq![':', ' '] + json_spec(v, true, pad + seq![' ', ' '])
            + seq!['\n'] + pad + seq!['}']);
    if fs.len() > 0 {
        lemma_json_fields_push(fs, (n, v), true, pad, 0);
        let whole = json_spec(SpecValue::Record(fs), true, pad);
        assert(whole.take(whole.len() - pad.len() - 2) =~= seq!['{'] + json_fields_spec(fs, true, pad, 0));
        assert(json_spec(SpecValue::Record(fs.push((n, v))), true, pad)
            =~= whole.take(whole.len() - pad.len() - 2)
                + seq![',', '\n'] + pad + seq![' ', ' '] + json_string_spec(n) + seq![':', ' '] + json_spec(v, true, pad + seq![' ', ' '])
                + seq!['\n'] + pad + seq!['}']);
    }
}

/// A JSON string is the characters in double quotes, each written as
/// itself unless it is a quote, a backslash or a control character: a quote
/// or backslash gets a backslash before it, a line feed, carriage return or
/// tab is written `\n`, `\r` or `\t`, and any other control character as
/// `\u` and four hexadecimal digits.
pub proof fn law_json_string_escaping(s: Seq<char>, c: char)
    ensures
        json_string_spec(Seq::empty()) == seq!['"', '"'],
        c != '"' && c != '\\' && !is_control(c) ==> json_string_spec(s.push(c)) == json_string_spec(s).drop_last() + seq![c, '"'],
        c == '"' || c == '\\' ==> json_string_spec(s.push(c)) == json_string_spec(s).drop_last() + seq!['\\', c, '"'],
        c == '\n' ==> json_string_spec(s.push(c)) == json_string_spec(s).drop_last() + seq!['\\', 'n', '"'],
        c == '\r' ==> json_string_spec(s.push(c)) == json_string_spec(s).drop_last() + seq!['\\', 'r', '"'],
        c == '\t' ==> json_string_spec(s.push(c)) == json_string_spec(s).drop_last() + seq!['\\', 't', '"'],
        is_control(c) && c != '\n' && c != '\r' && c != '\t' ==> (json_string_spec(s.push(c)).len() == json_string_spec(s).len() + 6
            && json_string_spec(s.push(c)).take(json_string_spec(s).len() as int + 1) == json_string_spec(s).drop_last() + seq!['\\', 'u']),
{
    lemma_json_chars_push(s, c);
    assert(json_string_spec(Seq::empty()) =~= seq!['"', '"']);
    assert(json_string_spec(s).drop_last() =~= seq!['"'] + json_chars_spec(s));
    assert((c as u32) != 10 ==> c != '\n');
    if c != '"' && c != '\\' && !is_control(c) {
        assert(c != '\n' && c != '\r' && c != '\t') by {
            assert(('\n' as u32) < 0x20 && ('\r' as u32) < 0x20 && ('\t' as u32) < 0x20);
        }
        assert(json_string_spec(s.push(c)) =~= json_string_spec(s).drop_last() + seq![c, '"']);
    }
    if c == '"' || c == '\\' {
        assert(json_string_spec(s.push(c)) =~= json_string_spec(s).drop_last() + seq!['\\', c, '"']);
    }
    if c == '\n' {
        assert(json_string_spec(s.push(c)) =~= json_string_spec(s).drop_last() + seq!['\\', 'n', '"']);
    }
    if c == '\r' {
        assert(json_string_spec(s.push(c)) =~= json_string_spec(s).drop_last() + seq!['\\', 'r', '"']);
    }
    if c == '\t' {
        assert(json_string_spec(s.push(c)) =~= json_string_spec(s).drop_last() + seq!['\\', 't', '"']);
    }
    if is_control(c) && c != '\n' && c != '\r' && c != '\t' {
        assert(c != '"' && c != '\\') by {
            assert(('"' as u32) == 34 && ('\\' as u32) == 92);
        }
        assert(json_string_spec(s.push(c)).take(json_string_spec(s).len() as int + 1) =~= json_string_spec(s).drop_last() + seq!['\\', 'u']);
    }
}

proof fn lemma_json_chars_push(s: Seq<char>, c: char)
    ensures
        json_chars_spec(s.push(c)) == json_chars_spec(s) + crate::emit::json::json_char(c),
    decreases s.len(),
{
    if s.len() == 0 {
        assert(s.push(c).drop_first() =~= Seq::<char>::empty());
        assert(json_chars_spec(s.push(c).drop_first()) == Seq::<char>::empty());
        assert(json_chars_spec(s) == Seq::<char>::empty());
        assert(s.push(c)[0] == c);
        assert(json_chars_spec(s.push(c)) =~= json_chars_spec(s) + crate::emit::json::json_char(c));
    } else {
        assert(s.push(c).drop_first() =~= s.drop_first().push(c));
        lemma_json_chars_push(s.drop_first(), c);
        assert(s.push(c)[0] == s[0]);
        assert(json_chars_spec(s.push(c)) =~= json_chars_spec(s) + crate::emit::json::json_char(c));
    }
}

} // verus!
