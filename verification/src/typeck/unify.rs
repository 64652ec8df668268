//! Types as the evaluator sees them: aliases expanded by name, and values
//! tested against the shape of an expanded type.

use vstd::prelude::*;

use crate::core_lang::ast::{lemma_type_fields_view, type_fields_view, CoreType, SpecType};
use crate::core_lang::types::{lemma_budget_shrinks, name_budget, CoreTypeContext, CoreTypeEnv};
use crate::core_lang::ast::strings_view;
use crate::error::{Error, ErrorCode, Result};
use crate::eval::value::{lemma_value_fields_view, lemma_values_view, value_fields_view, values_view, SpecValue, Value};
use crate::fields::{lemma_lookup_first, lemma_lookup_none, lookup, FieldMap};
use crate::text::{concat3, str_eq};
use crate::typeck::elaborate::CodeResult;

verus! {

broadcast use vstd::std_specs::vec::group_vec_axioms;

/// A type with its aliases replaced by their definitions, recursively, and
/// its source spans dropped. `stack` holds the aliases being expanded: an
/// alias that reaches itself is recursive. An alias given by reference is
/// not expanded here: aliases are looked up by name.
pub open spec fn expand_spec(env: CoreTypeEnv, t: SpecType, stack: Seq<Seq<char>>) -> CodeResult<SpecType>
    decreases name_budget(env.alias_names(), stack), t,
{
    match t {
        SpecType::Spanned(inner, _) => expand_spec(env, *inner, stack),
        SpecType::Alias(name) => {
            if stack.contains(name) {
                Err(ErrorCode::TypeRecursiveAlias)
            } else {
                match env.named(name) {
                    None => Err(ErrorCode::TypeUnknown),
                    Some(body) => {
                        proof {
                            env.lemma_alias_names(name);
                            lemma_budget_shrinks(env.alias_names(), stack, name);
                        }
                        expand_spec(env, body, stack.push(name))
                    },
                }
            }
        },
        SpecType::ResolvedAlias(_) => Err(ErrorCode::TypeUnknown),
        SpecType::Option(inner) => match expand_spec(env, *inner, stack) {
            Ok(x) => Ok(SpecType::Option(Box::new(x))),
            Err(c) => Err(c),
        },
        SpecType::List(inner) => match expand_spec(env, *inner, stack) {
            Ok(x) => Ok(SpecType::List(Box::new(x))),
            Err(c) => Err(c),
        },
        SpecType::Record(fields) => match expand_fields_spec(env, fields, stack) {
            Ok(fs) => Ok(SpecType::Record(fs)),
            Err(c) => Err(c),
        },
        SpecType::Refinement { binder, base, pred } => match expand_spec(env, *base, stack) {
            Ok(b) => Ok(SpecType::Refinement { binder, base: Box::new(b), pred }),
            Err(c) => Err(c),
        },
        SpecType::Function(i, o) => match expand_spec(env, *i, stack) {
            Ok(a) => match expand_spec(env, *o, stack) {
                Ok(b) => Ok(SpecType::Function(Box::new(a), Box::new(b))),
                Err(c) => Err(c),
            },
            Err(c) => Err(c),
        },
        _ => Ok(t),
    }
}

/// The fields of a record type, each expanded, in order; the first failure
/// wins.
pub open spec fn expand_fields_spec(env: CoreTypeEnv, fields: Seq<(Seq<char>, SpecType)>, stack: Seq<Seq<char>>) -> CodeResult<Seq<(Seq<char>, SpecType)>>
    decreases name_budget(env.alias_names(), stack), fields,
{
    if fields.len() == 0 {
        Ok(Seq::empty())
    } else {
        match expand_spec(env, fields[0].1, stack) {
            Err(c) => Err(c),
            Ok(t) => match expand_fields_spec(env, fields.drop_first(), stack) {
                Err(c) => Err(c),
                Ok(rest) => Ok(seq![(fields[0].0, t)] + rest),
            },
        }
    }
}

/// The message of the first failure in expanding a type (meaningful when
/// expansion fails): a recursive or an unknown alias.
pub open spec fn expand_message(env: CoreTypeEnv, t: SpecType, stack: Seq<Seq<char>>) -> Seq<char>
    decreases name_budget(env.alias_names(), stack), t,
{
    match t {
        SpecType::Spanned(inner, _) => expand_message(env, *inner, stack),
        SpecType::Alias(name) => {
            if stack.contains(name) {
                "recursive type alias `"@ + name + "`"@
            } else {
                match env.named(name) {
                    None => "unknown type `"@ + name + "`"@,
                    Some(body) => {
                        proof {
                            env.lemma_alias_names(name);
                            lemma_budget_shrinks(env.alias_names(), stack, name);
                        }
                        expand_message(env, body, stack.push(name))
                    },
                }
            }
        },
        SpecType::ResolvedAlias(_) => "unknown type alias"@,
        SpecType::Option(inner) => expand_message(env, *inner, stack),
        SpecType::List(inner) => expand_message(env, *inner, stack),
        SpecType::Record(fields) => expand_fields_message(env, fields, stack),
        SpecType::Refinement { base, .. } => expand_message(env, *base, stack),
        SpecType::Function(i, o) => if expand_spec(env, *i, stack) is Err {
            expand_message(env, *i, stack)
        } else {
            expand_message(env, *o, stack)
        },
        _ => Seq::empty(),
    }
}

/// The message of the first failure among the field types.
pub open spec fn expand_fields_message(env: CoreTypeEnv, fields: Seq<(Seq<char>, SpecType)>, stack: Seq<Seq<char>>) -> Seq<char>
    decreases name_budget(env.alias_names(), stack), fields,
{
    if fields.len() == 0 {
        Seq::empty()
    } else if expand_spec(env, fields[0].1, stack) is Err {
        expand_message(env, fields[0].1, stack)
    } else {
        expand_fields_message(env, fields.drop_first(), stack)
    }
}

/// Whether a value has the shape of an (expanded) type. A float type admits
/// integers; a refinement is never matched by shape alone; a function type
/// admits any function value.
pub open spec fn matches_spec(v: SpecValue, t: SpecType) -> bool
    decreases t, 0nat,
{
    match t {
        SpecType::Spanned(inner, _) => matches_spec(v, *inner),
        SpecType::Int => v is Int,
        SpecType::Float => v is Float || v is Int,
        SpecType::Bool => v is Bool,
        SpecType::Str => v is Str,
        SpecType::Option(inner) => match v {
            SpecValue::OptNone => true,
            SpecValue::OptSome(x) => matches_spec(*x, *inner),
            _ => false,
        },
        SpecType::List(inner) => match v {
            SpecValue::List(items) => matches_all_spec(items, *inner),
            _ => false,
        },
        SpecType::Record(fields) => match v {
            SpecValue::Record(vs) => vs.len() == fields.len() && matches_fields_spec(vs, fields),
            _ => false,
        },
        SpecType::LiteralUnion(names) => match v {
            SpecValue::Str(s) => names.contains(s),
            _ => false,
        },
        SpecType::Function(_, _) => v is Closure || v is Native,
        _ => false,
    }
}

/// Every item matches the type.
pub open spec fn matches_all_spec(items: Seq<SpecValue>, t: SpecType) -> bool
    decreases t, items.len() + 1,
{
    if items.len() == 0 {
        true
    } else {
        matches_spec(items[0], t) && matches_all_spec(items.drop_first(), t)
    }
}

/// Every field of the type is present among the values and matches.
pub open spec fn matches_fields_spec(vs: Seq<(Seq<char>, SpecValue)>, fields: Seq<(Seq<char>, SpecType)>) -> bool
    decreases fields, 0nat,
{
    if fields.len() == 0 {
        true
    } else {
        match lookup(vs, fields[0].0) {
            Some(x) => matches_spec(x, fields[0].1) && matches_fields_spec(vs, fields.drop_first()),
            None => false,
        }
    }
}

/// The word used for a type in messages.
pub open spec fn type_name_spec(t: SpecType) -> Seq<char> {
    match t {
        SpecType::Spanned(_, _) => "spanned"@,
        SpecType::Int => "Int"@,
        SpecType::Float => "Float"@,
        SpecType::Bool => "Bool"@,
        SpecType::Str => "String"@,
        SpecType::Option(_) => "option"@,
        SpecType::List(_) => "list"@,
        SpecType::Record(_) => "record"@,
        SpecType::LiteralUnion(_) => "literal union"@,
        SpecType::Refinement { .. } => "refinement"@,
        SpecType::Function(_, _) => "function"@,
        SpecType::Alias(_) => "alias"@,
        SpecType::ResolvedAlias(_) => "alias"@,
    }
}

/// The word used for the kind of a value in messages.
pub open spec fn value_name_spec(v: SpecValue) -> Seq<char> {
    match v {
        SpecValue::Int(_) => "Int"@,
        SpecValue::Float(_) => "Float"@,
        SpecValue::Bool(_) => "Bool"@,
        SpecValue::Str(_) => "String"@,
        SpecValue::OptNone => "option"@,
        SpecValue::OptSome(_) => "option"@,
        SpecValue::List(_) => "list"@,
        SpecValue::Record(_) => "record"@,
        SpecValue::Closure { .. } => "function"@,
        SpecValue::Native { .. } => "function"@,
    }
}

/// Expands the aliases of `ty` by name.
pub fn expand_type(ty: &CoreType, aliases: &CoreTypeEnv) -> (r: Result<CoreType>)
    ensures
        match r {
            Ok(t) => expand_spec(*aliases, ty@, Seq::empty()) == Ok::<SpecType, ErrorCode>(t@),
            Err(e) => expand_spec(*aliases, ty@, Seq::empty()) == Err::<SpecType, ErrorCode>(e.code_spec())
                && e.message_spec() == expand_message(*aliases, ty@, Seq::empty()),
        },
{
    let mut stack: Vec<String> = Vec::new();
    assert(strings_view(stack@) =~= Seq::<Seq<char>>::empty());
    expand_inner(ty, aliases, &mut stack)
}

fn has_name(stack: &Vec<String>, name: &String) -> (b: bool)
    ensures
        b == strings_view(stack@).contains(name@),
{
    let mut i: usize = 0;
    while i < stack.len()
        invariant
            i <= stack@.len(),
            forall|j: int| 0 <= j < i ==> stack@[j]@ != name@,
        decreases stack.len() - i,
    {
        if str_eq(stack[i].as_str(), name.as_str()) {
            assert(strings_view(stack@)[i as int] == name@);
            return true;
        }
        i = i + 1;
    }
    false
}

#[verifier::loop_isolation(false)]
fn expand_inner(ty: &CoreType, aliases: &CoreTypeEnv, stack: &mut Vec<String>) -> (r: Result<CoreType>)
    ensures
        match r {
            Ok(t) => expand_spec(*aliases, ty@, strings_view(old(stack)@)) == Ok::<SpecType, ErrorCode>(t@),
            Err(e) => expand_spec(*aliases, ty@, strings_view(old(stack)@)) == Err::<SpecType, ErrorCode>(e.code_spec())
                && e.message_spec() == expand_message(*aliases, ty@, strings_view(old(stack)@)),
        },
        final(stack)@ == old(stack)@,
    decreases name_budget(aliases.alias_names(), strings_view(old(stack)@)), ty,
{
    match ty {
        CoreType::Spanned(inner, _) => expand_inner(inner, aliases, stack),
        CoreType::Alias(name) => {
            if has_name(stack, name) {
                return Err(Error::with_code(
                    ErrorCode::TypeRecursiveAlias,
                    concat3("recursive type alias `", name.as_str(), "`").as_str(),
                ));
            }
            let body = match aliases.alias(name.as_str()) {
                Some(body) => body,
                None => {
                    return Err(Error::with_code(
                        ErrorCode::TypeUnknown,
                        concat3("unknown type `", name.as_str(), "`").as_str(),
                    ));
                },
            };
            let ghost old_stack = stack@;
            proof {
                aliases.lemma_alias_names(name@);
                lemma_budget_shrinks(aliases.alias_names(), strings_view(old_stack), name@);
                assert(strings_view(old_stack.push(*name)) =~= strings_view(old_stack).push(name@));
            }
            stack.push(name.clone());
            let r = expand_inner(body, aliases, stack);
            stack.pop();
            assert(stack@ =~= old_stack);
            r
        },
        CoreType::ResolvedAlias(_) => Err(Error::with_code(ErrorCode::TypeUnknown, "unknown type alias")),
        CoreType::Option(inner) => {
            let t = expand_inner(inner, aliases, stack)?;
            Ok(CoreType::Option(Box::new(t)))
        },
        CoreType::List(inner) => {
            let t = expand_inner(inner, aliases, stack)?;
            Ok(CoreType::List(Box::new(t)))
        },
        CoreType::Record(fields) => {
            let ghost fv = type_fields_view(fields.entries@);
            let ghost st = strings_view(stack@);
            proof {
                lemma_type_fields_view(fields.entries@);
                assert(fv.skip(0) =~= fv);
            }
            let mut out: Vec<(String, CoreType)> = Vec::new();
            let mut i: usize = 0;
            while i < fields.entries.len()
                invariant
                    i <= fields.entries@.len(),
                    fv.len() == fields.entries@.len(),
                    st == strings_view(old(stack)@),
                    stack@ == old(stack)@,
                    out@.len() == i,
                    forall|j: int| 0 <= j < i ==> #[trigger] out@[j].0@ == fields.entries@[j].0@,
                    expand_fields_spec(*aliases, fv, st) == match expand_fields_spec(*aliases, fv.skip(i as int), st) {
                        Ok(rest) => Ok::<Seq<(Seq<char>, SpecType)>, ErrorCode>(type_fields_view(out@) + rest),
                        Err(c) => Err(c),
                    },
                    expand_fields_message(*aliases, fv, st) == expand_fields_message(*aliases, fv.skip(i as int), st),
                decreases fields.entries.len() - i,
            {
                proof {
                    assert(decreases_to!(fields.entries => fields.entries@[i as int]));
                    assert(fv.skip(i as int).drop_first() =~= fv.skip(i + 1));
                    assert(fv.skip(i as int)[0] == fv[i as int]);
                }
                let t = expand_inner(&fields.entries[i].1, aliases, stack)?;
                let ghost before = out@;
                out.push((fields.entries[i].0.clone(), t));
                proof {
                    lemma_type_fields_view(before);
                    lemma_type_fields_view(out@);
                    assert(type_fields_view(out@) =~= type_fields_view(before).push((fv[i as int].0, t@)));
                    match expand_fields_spec(*aliases, fv.skip(i + 1), st) {
                        Ok(rest) => {
                            assert(type_fields_view(before) + (seq![(fv[i as int].0, t@)] + rest) =~= type_fields_view(out@) + rest);
                        },
                        Err(_) => {},
                    }
                }
                i = i + 1;
            }
            proof {
                assert(fv.skip(i as int) =~= Seq::<(Seq<char>, SpecType)>::empty());
                assert(type_fields_view(out@) + Seq::<(Seq<char>, SpecType)>::empty() =~= type_fields_view(out@));
            }
            Ok(CoreType::Record(FieldMap { entries: out }))
        },
        CoreType::Refinement { binder, base, pred } => {
            let b = expand_inner(base, aliases, stack)?;
            Ok(CoreType::Refinement { binder: binder.clone(), base: Box::new(b), pred: Box::new(pred.duplicate()) })
        },
        CoreType::Function(input, output) => {
            let a = expand_inner(input, aliases, stack)?;
            let b = expand_inner(output, aliases, stack)?;
            Ok(CoreType::Function(Box::new(a), Box::new(b)))
        },
        CoreType::Int => Ok(CoreType::Int),
        CoreType::Float => Ok(CoreType::Float),
        CoreType::Bool => Ok(CoreType::Bool),
        CoreType::String => Ok(CoreType::String),
        CoreType::LiteralUnion(_) => Ok(ty.duplicate()),
    }
}

/// Whether `ty` is an option type once its aliases are expanded.
pub fn is_option_type(ty: &CoreType, aliases: &CoreTypeEnv) -> (r: Result<bool>)
    ensures
        match r {
            Ok(b) => expand_spec(*aliases, ty@, Seq::empty()) matches Ok(t) && b == (t is Option),
            Err(e) => expand_spec(*aliases, ty@, Seq::empty()) == Err::<SpecType, ErrorCode>(e.code_spec()),
        },
{
    let t = expand_type(ty, aliases)?;
    Ok(match t {
        CoreType::Option(_) => true,
        _ => false,
    })
}

/// Whether `value` has the shape of `ty` once its aliases are expanded.
pub fn matches_type(value: &Value, ty: &CoreType, aliases: &CoreTypeEnv) -> (r: Result<bool>)
    ensures
        match r {
            Ok(b) => expand_spec(*aliases, ty@, Seq::empty()) matches Ok(t) && b == matches_spec(value@, t),
            Err(e) => expand_spec(*aliases, ty@, Seq::empty()) == Err::<SpecType, ErrorCode>(e.code_spec()),
        },
{
    let t = expand_type(ty, aliases)?;
    Ok(matches_expanded(value, &t))
}

/// Whether `value` has the shape of `ty`, taken as already expanded.
#[verifier::loop_isolation(false)]
pub fn matches_expanded(value: &Value, ty: &CoreType) -> (b: bool)
    ensures
        b == matches_spec(value@, ty@),
    decreases ty,
{
    match ty {
        CoreType::Spanned(inner, _) => matches_expanded(value, inner),
        CoreType::Int => matches!(value, Value::Int(_)),
        CoreType::Float => matches!(value, Value::Float(_)) || matches!(value, Value::Int(_)),
        CoreType::Bool => matches!(value, Value::Bool(_)),
        CoreType::String => matches!(value, Value::Str(_)),
        CoreType::Option(inner) => match value {
            Value::OptNone => true,
            Value::OptSome(x) => matches_expanded(x, inner),
            _ => false,
        },
        CoreType::List(inner) => match value {
            Value::List(items) => {
                let ghost vs = values_view(items@);
                proof {
                    lemma_values_view(items@);
                    assert(vs.skip(0) =~= vs);
                }
                let mut i: usize = 0;
                while i < items.len()
                    invariant
                        i <= items@.len(),
                        vs.len() == items@.len(),
                        matches_all_spec(vs, inner@) == matches_all_spec(vs.skip(i as int), inner@),
                    decreases items.len() - i,
                {
                    proof {
                        assert(vs.skip(i as int).drop_first() =~= vs.skip(i + 1));
                        assert(vs.skip(i as int)[0] == vs[i as int]);
                    }
                    if !matches_expanded(&items[i], inner) {
                        return false;
                    }
                    i = i + 1;
                }
                true
            },
            _ => false,
        },
        CoreType::Record(fields) => match value {
            Value::Record(values) => {
                let ghost vs = value_fields_view(values.entries@);
                let ghost fv = type_fields_view(fields.entries@);
                proof {
                    lemma_value_fields_view(values.entries@);
                    lemma_type_fields_view(fields.entries@);
                    assert(fv.skip(0) =~= fv);
                }
                if values.len() != fields.len() {
                    return false;
                }
                let mut i: usize = 0;
                while i < fields.entries.len()
                    invariant
                        i <= fields.entries@.len(),
                        fv.len() == fields.entries@.len(),
                        vs.len() == values.entries@.len(),
                        matches_fields_spec(vs, fv) == matches_fields_spec(vs, fv.skip(i as int)),
                    decreases fields.entries.len() - i,
                {
                    proof {
                        assert(decreases_to!(fields.entries => fields.entries@[i as int]));
                        assert(fv.skip(i as int).drop_first() =~= fv.skip(i + 1));
                        assert(fv.skip(i as int)[0] == fv[i as int]);
                    }
                    match values.position(fields.entries[i].0.as_str()) {
                        Some(p) => {
                            proof {
                                lemma_lookup_first(vs, fv[i as int].0, p as int);
                            }
                            if !matches_expanded(&values.entries[p].1, &fields.entries[i].1) {
                                return false;
                            }
                        },
                        None => {
                            proof {
                                lemma_lookup_none(vs, fv[i as int].0);
                            }
                            return false;
                        },
                    }
                    i = i + 1;
                }
                true
            },
            _ => false,
        },
        CoreType::LiteralUnion(names) => match value {
            Value::Str(s) => {
                let mut i: usize = 0;
                while i < names.len()
                    invariant
                        i <= names@.len(),
                        forall|j: int| 0 <= j < i ==> names@[j]@ != s@,
                    decreases names.len() - i,
                {
                    if str_eq(names[i].as_str(), s.as_str()) {
                        assert(strings_view(names@)[i as int] == s@);
                        return true;
                    }
                    i = i + 1;
                }
                assert(!strings_view(names@).contains(s@));
                false
            },
            _ => false,
        },
        CoreType::Function(_, _) => matches!(value, Value::Closure { .. }) || matches!(value, Value::Native(_)),
        CoreType::Refinement { .. } | CoreType::Alias(_) | CoreType::ResolvedAlias(_) => false,
    }
}

/// The word used for a type in messages.
pub fn type_label(ty: &CoreType) -> (s: &'static str)
    ensures
        s@ == type_name_spec(ty@),
{
    let s = match ty {
        CoreType::Spanned(_, _) => "spanned",
        CoreType::Int => "Int",
        CoreType::Float => "Float",
        CoreType::Bool => "Bool",
        CoreType::String => "String",
        CoreType::Option(_) => "option",
        CoreType::List(_) => "list",
        CoreType::Record(_) => "record",
        CoreType::LiteralUnion(_) => "literal union",
        CoreType::Refinement { .. } => "refinement",
        CoreType::Function(_, _) => "function",
        CoreType::Alias(_) => "alias",
        CoreType::ResolvedAlias(_) => "alias",
    };
    proof {
        reveal_strlit("spanned");
        reveal_strlit("Int");
        reveal_strlit("Float");
        reveal_strlit("Bool");
        reveal_strlit("String");
        reveal_strlit("option");
        reveal_strlit("list");
        reveal_strlit("record");
        reveal_strlit("literal union");
        reveal_strlit("refinement");
        reveal_strlit("function");
        reveal_strlit("alias");
    }
    s
}

/// The word used for the kind of a value in messages.
pub fn value_name(value: &Value) -> (s: &'static str)
    ensures
        s@ == value_name_spec(value@),
{
    let s = match value {
        Value::Int(_) => "Int",
        Value::Float(_) => "Float",
        Value::Bool(_) => "Bool",
        Value::Str(_) => "String",
        Value::OptNone | Value::OptSome(_) => "option",
        Value::List(_) => "list",
        Value::Record(_) => "record",
        Value::Closure { .. } | Value::Native(_) => "function",
    };
    proof {
        reveal_strlit("Int");
        reveal_strlit("Float");
        reveal_strlit("Bool");
        reveal_strlit("String");
        reveal_strlit("option");
        reveal_strlit("list");
        reveal_strlit("record");
        reveal_strlit("function");
    }
    s
}

} // verus!
