//! Type synthesis: the type of a core expression computed bottom-up, with
//! the expression elaborated on the way. Synthesis either finds a type,
//! finds none (the expression needs an expected type), or fails.

use vstd::prelude::*;

use crate::core_lang::ast::{
    expr_fields_view, expr_list_view, lemma_expr_fields_view, lemma_expr_list_view,
    lemma_type_fields_view, origin_span_spec, type_fields_view, unspanned_type, CoreExpr, CoreType,
    GlobalRef, SpecExpr, SpecType, TypedCoreExpr,
};
use crate::core_lang::types::{type_equiv, CoreTypeEquivalence};
use crate::error::{Error, ErrorCode, Result};
use crate::fields::{lemma_lookup_first, lemma_lookup_none, lookup, FieldMap};
use crate::text::{concat3, str_eq};
use crate::typeck::elaborate::{elab_spec, CodeResult, CoreElaborator};
use crate::typeck::scope::{
    binding_name, binding_type, find_local, find_local_type, local_type_spec, local_value_spec,
    locals_model, ValueTypeScope,
};

verus! {

broadcast use vstd::std_specs::vec::group_vec_axioms;

/// The model of the global bindings: names with references and types.
pub type GlobalsModel = Seq<(Seq<char>, (GlobalRef, SpecType))>;

/// The model of the local binders in scope, innermost last.
pub type LocalsModel = Seq<(Seq<char>, SpecType)>;

/// The outcome of synthesis in the model: an elaborated expression with its
/// type, no type, or the code of an error.
pub type Synth = CodeResult<Option<(SpecExpr, SpecType)>>;

/// Whether the function position names the interpolation function `show`.
pub open spec fn is_show_spec(f: SpecExpr, g: GlobalsModel) -> bool
    decreases f,
{
    match f {
        SpecExpr::Spanned(inner, _) => is_show_spec(*inner, g),
        SpecExpr::Var(name) => name == "show"@,
        SpecExpr::Global(b) => binding_name(g, b) == Some("show"@),
        _ => false,
    }
}

/// Types whose values can be interpolated into a string.
pub open spec fn showable(t: SpecType) -> bool {
    let u = unspanned_type(t);
    u == SpecType::Int || u == SpecType::Float || u == SpecType::Bool || u == SpecType::Str
}

/// The result type of a unary operator, when the operand type allows it.
pub open spec fn unary_type(op: Seq<char>, t: SpecType) -> Option<SpecType> {
    let u = unspanned_type(t);
    if op == "!"@ && u == SpecType::Bool {
        Some(SpecType::Bool)
    } else if op == "-"@ && u == SpecType::Int {
        Some(SpecType::Int)
    } else if op == "-"@ && u == SpecType::Float {
        Some(SpecType::Float)
    } else {
        None
    }
}

pub open spec fn is_arith_op(op: Seq<char>) -> bool {
    op == "+"@ || op == "-"@ || op == "*"@ || op == "/"@
}

pub open spec fn is_order_op(op: Seq<char>) -> bool {
    op == "<"@ || op == "<="@ || op == ">"@ || op == ">="@
}

/// The result type of a binary operator, when the operand types allow it.
pub open spec fn binary_type(op: Seq<char>, l: SpecType, r: SpecType) -> Option<SpecType> {
    let ul = unspanned_type(l);
    let ur = unspanned_type(r);
    if (is_arith_op(op) || op == "%"@) && ul == SpecType::Int && ur == SpecType::Int {
        Some(SpecType::Int)
    } else if is_arith_op(op) && ul == SpecType::Float && ur == SpecType::Float {
        Some(SpecType::Float)
    } else if op == "++"@ && ul == SpecType::Str && ur == SpecType::Str {
        Some(SpecType::Str)
    } else if (op == "=="@ || op == "!="@) && type_equiv(l, r) {
        Some(SpecType::Bool)
    } else if is_order_op(op) && ((ul == SpecType::Int && ur == SpecType::Int) || (ul
        == SpecType::Float && ur == SpecType::Float)) {
        Some(SpecType::Bool)
    } else if (op == "&&"@ || op == "||"@) && ul == SpecType::Bool && ur == SpecType::Bool {
        Some(SpecType::Bool)
    } else {
        None
    }
}

/// Synthesizing the type of `e` with globals `g` and locals `l`.
pub open spec fn synth_spec(e: SpecExpr, g: GlobalsModel, l: LocalsModel) -> Synth
    decreases e, 1nat,
{
    match e {
        SpecExpr::Spanned(inner, span) => match synth_spec(*inner, g, l) {
            Ok(Some((x, t))) => if origin_span_spec(x) is Some {
                Ok(Some((x, t)))
            } else {
                Ok(Some((SpecExpr::Spanned(Box::new(x), span), t)))
            },
            other => other,
        },
        SpecExpr::Int(_) => Ok(Some((e, SpecType::Int))),
        SpecExpr::Float(_) => Ok(Some((e, SpecType::Float))),
        SpecExpr::Bool(_) => Ok(Some((e, SpecType::Bool))),
        SpecExpr::Str(_) => Ok(Some((e, SpecType::Str))),
        SpecExpr::Var(name) => match local_value_spec(l, name) {
            Some((local, t)) => Ok(Some((SpecExpr::Local(local), t))),
            None => Ok(None),
        },
        SpecExpr::Global(b) => match binding_type(g, b) {
            Some(t) => Ok(Some((e, t))),
            None => Err(ErrorCode::Reconf),
        },
        SpecExpr::Local(local) => match local_type_spec(l, local) {
            Some(t) => Ok(Some((e, t))),
            None => Err(ErrorCode::Reconf),
        },
        SpecExpr::OptSome(inner) => match synth_spec(*inner, g, l) {
            Ok(Some((x, t))) => Ok(Some((SpecExpr::OptSome(Box::new(x)), SpecType::Option(Box::new(t))))),
            other => other,
        },
        SpecExpr::Ascribe(inner, ty) => match elab_spec(*inner, ty) {
            Ok(x) => Ok(Some((x, ty))),
            Err(c) => Err(c),
        },
        SpecExpr::List(items) => if items.len() == 0 {
            Ok(None)
        } else {
            match synth_spec(items[0], g, l) {
                Ok(Some((x, t))) => match synth_same_spec(items.drop_first(), t, g, l) {
                    Ok(Some(xs)) => Ok(Some((SpecExpr::List(seq![x] + xs), SpecType::List(Box::new(t))))),
                    Ok(None) => Ok(None),
                    Err(c) => Err(c),
                },
                other => other,
            }
        },
        SpecExpr::Record(fs) => match synth_fields_spec(fs, g, l) {
            Ok(Some((xs, ts))) => Ok(Some((SpecExpr::Record(xs), SpecType::Record(ts)))),
            Ok(None) => Ok(None),
            Err(c) => Err(c),
        },
        SpecExpr::Field(inner, name) => match synth_spec(*inner, g, l) {
            Ok(Some((x, t))) => match unspanned_type(t) {
                SpecType::Record(tfs) => match lookup(tfs, name) {
                    Some(ft) => Ok(Some((SpecExpr::Field(Box::new(x), name), ft))),
                    None => Ok(None),
                },
                _ => Ok(None),
            },
            other => other,
        },
        SpecExpr::If(c, t, f) => match synth_spec(*c, g, l) {
            Ok(Some((cx, ct))) => if !type_equiv(ct, SpecType::Bool) {
                Ok(None)
            } else {
                match synth_spec(*t, g, l) {
                    Ok(Some((tx, tt))) => match synth_spec(*f, g, l) {
                        Ok(Some((fx, ft))) => if type_equiv(tt, ft) {
                            Ok(Some((SpecExpr::If(Box::new(cx), Box::new(tx), Box::new(fx)), tt)))
                        } else {
                            Ok(None)
                        },
                        other => other,
                    },
                    other => other,
                }
            },
            other => other,
        },
        SpecExpr::Let(name, ann, value, body) => {
            let v = match ann {
                Some(ty) => match elab_spec(*value, ty) {
                    Ok(x) => Ok(Some((x, ty))),
                    Err(c) => Err(c),
                },
                None => synth_spec(*value, g, l),
            };
            match v {
                Ok(Some((vx, vt))) => match synth_spec(*body, g, l.push((name, vt))) {
                    Ok(Some((bx, bt))) => Ok(Some((SpecExpr::Let(name, None, Box::new(vx), Box::new(bx)), bt))),
                    other => other,
                },
                other => other,
            }
        },
        SpecExpr::Lambda(p, ty, body) => match synth_spec(*body, g, l.push((p, ty))) {
            Ok(Some((bx, bt))) => Ok(Some((SpecExpr::Lambda(p, ty, Box::new(bx)), SpecType::Function(Box::new(ty), Box::new(bt))))),
            other => other,
        },
        SpecExpr::Apply(f, a) => if is_show_spec(*f, g) {
            match synth_spec(*a, g, l) {
                Ok(Some((ax, at))) => if showable(at) {
                    Ok(Some((SpecExpr::Apply(f, Box::new(ax)), SpecType::Str)))
                } else {
                    Err(ErrorCode::TypeBadInterpolation)
                },
                other => other,
            }
        } else {
            match synth_spec(*f, g, l) {
                Ok(Some((fx, ft))) => match unspanned_type(ft) {
                    SpecType::Function(i, o) => match elab_spec(*a, *i) {
                        Ok(ax) => Ok(Some((SpecExpr::Apply(Box::new(fx), Box::new(ax)), *o))),
                        Err(c) => Err(c),
                    },
                    _ => Err(ErrorCode::TypeApplyNonFunction),
                },
                other => other,
            }
        },
        SpecExpr::Unary(op, inner) => match synth_spec(*inner, g, l) {
            Ok(Some((x, t))) => match unary_type(op, t) {
                Some(ut) => Ok(Some((SpecExpr::Unary(op, Box::new(x)), ut))),
                None => Ok(None),
            },
            other => other,
        },
        SpecExpr::Binary(op, le, re) => match synth_spec(*le, g, l) {
            Ok(Some((lx, lt))) => match synth_spec(*re, g, l) {
                Ok(Some((rx, rt))) => match binary_type(op, lt, rt) {
                    Some(bt) => Ok(Some((SpecExpr::Binary(op, Box::new(lx), Box::new(rx)), bt))),
                    None => Ok(None),
                },
                other => other,
            },
            other => other,
        },
        SpecExpr::OptNone => Ok(None),
    }
}

/// Synthesizing the remaining list items, each of a type equivalent to `t0`;
/// the first item of another type ends synthesis without a type.
pub open spec fn synth_same_spec(items: Seq<SpecExpr>, t0: SpecType, g: GlobalsModel, l: LocalsModel) -> CodeResult<Option<Seq<SpecExpr>>>
    decreases items, 0nat,
{
    if items.len() == 0 {
        Ok(Some(Seq::empty()))
    } else {
        match synth_spec(items[0], g, l) {
            Ok(Some((x, t))) => if !type_equiv(t, t0) {
                Ok(None)
            } else {
                match synth_same_spec(items.drop_first(), t0, g, l) {
                    Ok(Some(xs)) => Ok(Some(seq![x] + xs)),
                    other => other,
                }
            },
            Ok(None) => Ok(None),
            Err(c) => Err(c),
        }
    }
}

/// Synthesizing every field of a record, in order.
pub open spec fn synth_fields_spec(fs: Seq<(Seq<char>, SpecExpr)>, g: GlobalsModel, l: LocalsModel) -> CodeResult<Option<(Seq<(Seq<char>, SpecExpr)>, Seq<(Seq<char>, SpecType)>)>>
    decreases fs, 0nat,
{
    if fs.len() == 0 {
        Ok(Some((Seq::empty(), Seq::empty())))
    } else {
        match synth_spec(fs[0].1, g, l) {
            Ok(Some((x, t))) => match synth_fields_spec(fs.drop_first(), g, l) {
                Ok(Some((xs, ts))) => Ok(Some((seq![(fs[0].0, x)] + xs, seq![(fs[0].0, t)] + ts))),
                other => other,
            },
            Ok(None) => Ok(None),
            Err(c) => Err(c),
        }
    }
}

/// The code of the error for an expression whose type cannot be synthesized.
pub open spec fn unsynth_code(e: SpecExpr) -> ErrorCode
    decreases e,
{
    match e {
        SpecExpr::Spanned(inner, _) => unsynth_code(*inner),
        SpecExpr::OptNone => ErrorCode::TypeNoneNeedsExpected,
        SpecExpr::List(items) => if items.len() == 0 {
            ErrorCode::TypeNoneNeedsExpected
        } else {
            ErrorCode::TypeMismatch
        },
        SpecExpr::Var(_) => ErrorCode::Reconf,
        SpecExpr::Local(_) => ErrorCode::Reconf,
        SpecExpr::Global(_) => ErrorCode::Reconf,
        _ => ErrorCode::TypeMismatch,
    }
}

/// The message of the error for an expression whose type cannot be
/// synthesized.
pub open spec fn unsynth_message(e: SpecExpr) -> Seq<char>
    decreases e,
{
    match e {
        SpecExpr::Spanned(inner, _) => unsynth_message(*inner),
        SpecExpr::OptNone => "`none` requires an expected option type"@,
        SpecExpr::List(items) => if items.len() == 0 {
            "empty lists require an expected list type"@
        } else {
            "type mismatch: cannot synthesize expression type"@
        },
        SpecExpr::Var(name) => "unknown identifier `"@ + name + "`"@,
        SpecExpr::Local(_) => "internal error: invalid local reference"@,
        SpecExpr::Global(_) => "internal error: invalid global reference"@,
        _ => "type mismatch: cannot synthesize expression type"@,
    }
}

/// An executable synthesis result agrees with a model result.
pub open spec fn sagrees(r: Result<Option<TypedCoreExpr>>, s: Synth) -> bool {
    match r {
        Ok(Some(t)) => s == Ok::<Option<(SpecExpr, SpecType)>, ErrorCode>(Some((t.expr@, t.ty@))),
        Ok(None) => s == Ok::<Option<(SpecExpr, SpecType)>, ErrorCode>(None),
        Err(e) => s == Err::<Option<(SpecExpr, SpecType)>, ErrorCode>(e.code_spec()),
    }
}

/// The local binders extended by one innermost binder.
fn extend_locals(locals: &Vec<(String, CoreType)>, name: &String, ty: &CoreType) -> (r: Vec<(String, CoreType)>)
    ensures
        locals_model(r@) == locals_model(locals@).push((name@, ty@)),
{
    let mut out: Vec<(String, CoreType)> = Vec::new();
    let mut i: usize = 0;
    while i < locals.len()
        invariant
            i <= locals@.len(),
            locals_model(out@) == locals_model(locals@).take(i as int),
        decreases locals.len() - i,
    {
        let ghost prev = out@;
        out.push((locals[i].0.clone(), locals[i].1.duplicate()));
        assert(locals_model(out@) =~= locals_model(prev).push((locals@[i as int].0@, locals@[i as int].1@)));
        assert(locals_model(locals@).take(i + 1) =~= locals_model(locals@).take(i as int).push((locals@[i as int].0@, locals@[i as int].1@)));
        i = i + 1;
    }
    let ghost prev = out@;
    out.push((name.clone(), ty.duplicate()));
    assert(locals_model(locals@).take(locals@.len() as int) =~= locals_model(locals@));
    assert(locals_model(out@) =~= locals_model(prev).push((name@, ty@)));
    out
}

impl CoreElaborator {
    /// Synthesizes the type of an expression in the scope of the given
    /// global bindings; an expression whose type cannot be found is refused.
    pub fn synthesize_expr_type(&mut self, expr: CoreExpr, values: &ValueTypeScope) -> (r: Result<TypedCoreExpr>)
        ensures
            match r {
                Ok(t) => synth_spec(expr@, values.spec_globals(), Seq::empty()) == Ok::<Option<(SpecExpr, SpecType)>, ErrorCode>(Some((t.expr@, t.ty@))),
                Err(e) => match synth_spec(expr@, values.spec_globals(), Seq::empty()) {
                    Err(c) => c == e.code_spec(),
                    Ok(None) => e.code_spec() == unsynth_code(expr@) && e.message_spec() == unsynth_message(expr@),
                    Ok(Some(_)) => false,
                },
            },
    {
        let locals: Vec<(String, CoreType)> = Vec::new();
        assert(locals_model(locals@) =~= Seq::<(Seq<char>, SpecType)>::empty());
        match self.synthesize_known_expr(&expr, values, &locals)? {
            Some(typed) => Ok(typed),
            None => Err(self.unsynthesizable_expr_error(&expr)),
        }
    }

    fn synthesize_known_expr(&mut self, expr: &CoreExpr, values: &ValueTypeScope, locals: &Vec<(String, CoreType)>) -> (r: Result<Option<TypedCoreExpr>>)
        ensures
            sagrees(r, synth_spec(expr@, values.spec_globals(), locals_model(locals@))),
        decreases expr@, 1nat,
    {
        match expr {
            CoreExpr::Spanned(inner, span) => {
                let typed = match self.synthesize_known_expr(inner, values, locals)? {
                    Some(t) => t,
                    None => return Ok(None),
                };
                if typed.expr.origin_span().is_some() {
                    return Ok(Some(typed));
                }
                Ok(Some(TypedCoreExpr { expr: CoreExpr::Spanned(Box::new(typed.expr), *span), ty: typed.ty }))
            },
            CoreExpr::Int(v) => Ok(Some(TypedCoreExpr { expr: CoreExpr::Int(*v), ty: CoreType::Int })),
            CoreExpr::Float(v) => Ok(Some(TypedCoreExpr { expr: CoreExpr::Float(v.clone()), ty: CoreType::Float })),
            CoreExpr::Bool(v) => Ok(Some(TypedCoreExpr { expr: CoreExpr::Bool(*v), ty: CoreType::Bool })),
            CoreExpr::String(v) => Ok(Some(TypedCoreExpr { expr: CoreExpr::String(v.clone()), ty: CoreType::String })),
            CoreExpr::Var(name) => match find_local(locals, name) {
                Some((local, ty)) => Ok(Some(TypedCoreExpr { expr: CoreExpr::Local(local), ty: ty.duplicate() })),
                None => Ok(None),
            },
            CoreExpr::Global(binding) => match values.lookup_binding(*binding) {
                Some((_, ty)) => Ok(Some(TypedCoreExpr { expr: CoreExpr::Global(*binding), ty: ty.duplicate() })),
                None => Err(Error::new("internal error: invalid global reference")),
            },
            CoreExpr::Local(local) => match find_local_type(locals, *local) {
                Some(ty) => Ok(Some(TypedCoreExpr { expr: CoreExpr::Local(*local), ty: ty.duplicate() })),
                None => Err(Error::new("internal error: invalid local reference")),
            },
            CoreExpr::OptSome(inner) => {
                let typed = match self.synthesize_known_expr(inner, values, locals)? {
                    Some(t) => t,
                    None => return Ok(None),
                };
                Ok(Some(TypedCoreExpr {
                    expr: CoreExpr::OptSome(Box::new(typed.expr)),
                    ty: CoreType::Option(Box::new(typed.ty)),
                }))
            },
            CoreExpr::Ascribe(inner, ty) => Ok(Some(self.check_expr(inner.duplicate(), ty)?)),
            CoreExpr::List(items) => self.synthesize_list(items, values, locals),
            CoreExpr::Record(fields) => self.synthesize_record(fields, values, locals),
            CoreExpr::Field(inner, field) => self.synthesize_field(inner, field, values, locals),
            CoreExpr::If(c, t, f) => self.synthesize_if(c, t, f, values, locals),
            CoreExpr::Let(name, annotation, value, body) => self.synthesize_let(name, annotation, value, body, values, locals),
            CoreExpr::Lambda(param, ty, body) => self.synthesize_lambda(param, ty, body, values, locals),
            CoreExpr::Apply(function, arg) => self.synthesize_apply(function, arg, values, locals),
            CoreExpr::Unary(op, inner) => self.synthesize_unary(op, inner, values, locals),
            CoreExpr::Binary(op, left, right) => self.synthesize_binary(op, left, right, values, locals),
            CoreExpr::OptNone => Ok(None),
        }
    }
    /// Synthesizes a non-empty list whose items all have equivalent types.
    #[verifier::loop_isolation(false)]
    fn synthesize_list(&mut self, items: &Vec<CoreExpr>, values: &ValueTypeScope, locals: &Vec<(String, CoreType)>) -> (r: Result<Option<TypedCoreExpr>>)
        ensures
            sagrees(r, synth_spec(SpecExpr::List(expr_list_view(items@)), values.spec_globals(), locals_model(locals@))),
        decreases SpecExpr::List(expr_list_view(items@)), 0nat,
    {
        let ghost g = values.spec_globals();
        let ghost lm = locals_model(locals@);
        let ghost iv = expr_list_view(items@);
        proof {
            lemma_expr_list_view(items@);
        }
        if items.len() == 0 {
            return Ok(None);
        }
        proof {
            assert(decreases_to!(SpecExpr::List(iv) => iv));
            assert(decreases_to!(iv => iv[0]));
        }
        let first = match self.synthesize_known_expr(&items[0], values, locals)? {
            Some(t) => t,
            None => return Ok(None),
        };
        let ghost x0 = first.expr@;
        let ghost t0 = first.ty@;
        let mut exprs: Vec<CoreExpr> = Vec::new();
        exprs.push(first.expr);
        let item_ty = first.ty;
        let ghost mut done: Seq<SpecExpr> = Seq::empty();
        proof {
            lemma_expr_list_view(exprs@);
            assert(expr_list_view(exprs@) =~= seq![x0] + done);
            assert(iv.skip(1) =~= iv.drop_first());
        }
        let mut i: usize = 1;
        while i < items.len()
            invariant
                1 <= i <= items@.len(),
                iv.len() == items@.len(),
                item_ty@ == t0,
                expr_list_view(exprs@) == seq![x0] + done,
                synth_same_spec(iv.drop_first(), t0, g, lm) == match synth_same_spec(iv.skip(i as int), t0, g, lm) {
                    Ok(Some(xs)) => Ok(Some(done + xs)),
                    other => other,
                },
            decreases items.len() - i,
        {
            let ghost sub = iv.skip(i as int);
            assert(sub[0] == iv[i as int]);
            assert(sub.drop_first() =~= iv.skip(i + 1));
            proof {
                assert(decreases_to!(SpecExpr::List(iv) => iv));
                assert(decreases_to!(iv => iv[i as int]));
            }
            let typed = match self.synthesize_known_expr(&items[i], values, locals)? {
                Some(t) => t,
                None => return Ok(None),
            };
            if !CoreTypeEquivalence::equivalent(&typed.ty, &item_ty) {
                return Ok(None);
            }
            let ghost prev = exprs@;
            let ghost x = typed.expr@;
            exprs.push(typed.expr);
            proof {
                lemma_expr_list_view(prev);
                lemma_expr_list_view(exprs@);
                assert(expr_list_view(exprs@) =~= expr_list_view(prev).push(x));
                match synth_same_spec(iv.skip(i + 1), t0, g, lm) {
                    Ok(Some(xs)) => {
                        assert(done + (seq![x] + xs) =~= done.push(x) + xs);
                    },
                    _ => {},
                }
                done = done.push(x);
                assert(seq![x0] + done =~= (seq![x0] + done.drop_last()).push(x));
            }
            i = i + 1;
        }
        proof {
            assert(iv.skip(i as int) =~= Seq::<SpecExpr>::empty());
            assert(done + Seq::<SpecExpr>::empty() =~= done);
        }
        Ok(Some(TypedCoreExpr { expr: CoreExpr::List(exprs), ty: CoreType::List(Box::new(item_ty)) }))
    }

    /// Synthesizes every field of a record.
    #[verifier::loop_isolation(false)]
    fn synthesize_record(&mut self, fields: &FieldMap<CoreExpr>, values: &ValueTypeScope, locals: &Vec<(String, CoreType)>) -> (r: Result<Option<TypedCoreExpr>>)
        ensures
            sagrees(r, synth_spec(SpecExpr::Record(expr_fields_view(fields.entries@)), values.spec_globals(), locals_model(locals@))),
        decreases SpecExpr::Record(expr_fields_view(fields.entries@)), 0nat,
    {
        let ghost g = values.spec_globals();
        let ghost lm = locals_model(locals@);
        let ghost fv = expr_fields_view(fields.entries@);
        proof {
            lemma_expr_fields_view(fields.entries@);
            assert(fv.skip(0) =~= fv);
        }
        let mut exprs: Vec<(String, CoreExpr)> = Vec::new();
        let mut types: Vec<(String, CoreType)> = Vec::new();
        let mut i: usize = 0;
        while i < fields.entries.len()
            invariant
                i <= fields.entries@.len(),
                fv.len() == fields.entries@.len(),
                synth_fields_spec(fv, g, lm) == match synth_fields_spec(fv.skip(i as int), g, lm) {
                    Ok(Some((xs, ts))) => Ok(Some((expr_fields_view(exprs@) + xs, type_fields_view(types@) + ts))),
                    other => other,
                },
            decreases fields.entries.len() - i,
        {
            let ghost sub = fv.skip(i as int);
            assert(sub[0] == fv[i as int]);
            assert(sub.drop_first() =~= fv.skip(i + 1));
            proof {
                assert(decreases_to!(SpecExpr::Record(fv) => fv));
                assert(decreases_to!(fv => fv[i as int]));
            }
            let typed = match self.synthesize_known_expr(&fields.entries[i].1, values, locals)? {
                Some(t) => t,
                None => return Ok(None),
            };
            let ghost pe = exprs@;
            let ghost pt = types@;
            let ghost x = typed.expr@;
            let ghost t = typed.ty@;
            exprs.push((fields.entries[i].0.clone(), typed.expr));
            types.push((fields.entries[i].0.clone(), typed.ty));
            proof {
                lemma_expr_fields_view(pe);
                lemma_expr_fields_view(exprs@);
                lemma_type_fields_view(pt);
                lemma_type_fields_view(types@);
                let name = sub[0].0;
                assert(expr_fields_view(exprs@) =~= expr_fields_view(pe) + seq![(name, x)]);
                assert(type_fields_view(types@) =~= type_fields_view(pt) + seq![(name, t)]);
                match synth_fields_spec(fv.skip(i + 1), g, lm) {
                    Ok(Some((xs, ts))) => {
                        assert(expr_fields_view(pe) + (seq![(name, x)] + xs) =~= expr_fields_view(exprs@) + xs);
                        assert(type_fields_view(pt) + (seq![(name, t)] + ts) =~= type_fields_view(types@) + ts);
                    },
                    _ => {},
                }
            }
            i = i + 1;
        }
        proof {
            assert(fv.skip(i as int) =~= Seq::<(Seq<char>, SpecExpr)>::empty());
            assert(expr_fields_view(exprs@) + Seq::<(Seq<char>, SpecExpr)>::empty() =~= expr_fields_view(exprs@));
            assert(type_fields_view(types@) + Seq::<(Seq<char>, SpecType)>::empty() =~= type_fields_view(types@));
        }
        Ok(Some(TypedCoreExpr {
            expr: CoreExpr::Record(FieldMap { entries: exprs }),
            ty: CoreType::Record(FieldMap { entries: types }),
        }))
    }

    /// Synthesizes a field access on a record.
    fn synthesize_field(&mut self, inner: &CoreExpr, field: &String, values: &ValueTypeScope, locals: &Vec<(String, CoreType)>) -> (r: Result<Option<TypedCoreExpr>>)
        ensures
            sagrees(r, synth_spec(SpecExpr::Field(Box::new(inner@), field@), values.spec_globals(), locals_model(locals@))),
        decreases SpecExpr::Field(Box::new(inner@), field@), 0nat,
    {
        let receiver = match self.synthesize_known_expr(inner, values, locals)? {
            Some(t) => t,
            None => return Ok(None),
        };
        let ty = match receiver.ty.as_unspanned() {
            CoreType::Record(fields) => {
                let ghost es = fields.entries@;
                proof {
                    lemma_type_fields_view(es);
                }
                match fields.get(field.as_str()) {
                    Some(t) => {
                        proof {
                            let q = choose|q: int|
                                0 <= q < es.len() && es[q].0@ == field@ && es[q].1 == *t
                                    && forall|j: int| 0 <= j < q ==> es[j].0@ != field@;
                            lemma_lookup_first(type_fields_view(es), field@, q);
                        }
                        t.duplicate()
                    },
                    None => {
                        proof {
                            lemma_lookup_none(type_fields_view(es), field@);
                        }
                        return Ok(None);
                    },
                }
            },
            _ => return Ok(None),
        };
        Ok(Some(TypedCoreExpr { expr: CoreExpr::Field(Box::new(receiver.expr), field.clone()), ty }))
    }

    /// Synthesizes a conditional with a boolean condition and branches of
    /// equivalent types.
    fn synthesize_if(&mut self, c: &CoreExpr, t: &CoreExpr, f: &CoreExpr, values: &ValueTypeScope, locals: &Vec<(String, CoreType)>) -> (r: Result<Option<TypedCoreExpr>>)
        ensures
            sagrees(r, synth_spec(SpecExpr::If(Box::new(c@), Box::new(t@), Box::new(f@)), values.spec_globals(), locals_model(locals@))),
        decreases SpecExpr::If(Box::new(c@), Box::new(t@), Box::new(f@)), 0nat,
    {
        let cond = match self.synthesize_known_expr(c, values, locals)? {
            Some(x) => x,
            None => return Ok(None),
        };
        if !CoreTypeEquivalence::equivalent(&cond.ty, &CoreType::Bool) {
            return Ok(None);
        }
        let then_expr = match self.synthesize_known_expr(t, values, locals)? {
            Some(x) => x,
            None => return Ok(None),
        };
        let else_expr = match self.synthesize_known_expr(f, values, locals)? {
            Some(x) => x,
            None => return Ok(None),
        };
        if !CoreTypeEquivalence::equivalent(&then_expr.ty, &else_expr.ty) {
            return Ok(None);
        }
        let ty = then_expr.ty;
        Ok(Some(TypedCoreExpr {
            expr: CoreExpr::If(Box::new(cond.expr), Box::new(then_expr.expr), Box::new(else_expr.expr)),
            ty,
        }))
    }

    /// Synthesizes a `let`: the value is checked against its annotation or
    /// synthesized, then the body is synthesized with the new binder.
    fn synthesize_let(&mut self, name: &String, annotation: &Option<CoreType>, value: &CoreExpr, body: &CoreExpr, values: &ValueTypeScope, locals: &Vec<(String, CoreType)>) -> (r: Result<Option<TypedCoreExpr>>)
        ensures
            sagrees(r, synth_spec(SpecExpr::Let(name@, match annotation { Some(ty) => Some(ty@), None => None }, Box::new(value@), Box::new(body@)), values.spec_globals(), locals_model(locals@))),
        decreases SpecExpr::Let(name@, match annotation { Some(ty) => Some(ty@), None => None }, Box::new(value@), Box::new(body@)), 0nat,
    {
        let typed_value = match annotation {
            Some(ty) => self.check_expr(value.duplicate(), ty)?,
            None => match self.synthesize_known_expr(value, values, locals)? {
                Some(x) => x,
                None => return Ok(None),
            },
        };
        let inner = extend_locals(locals, name, &typed_value.ty);
        let typed_body = match self.synthesize_known_expr(body, values, &inner)? {
            Some(x) => x,
            None => return Ok(None),
        };
        let ty = typed_body.ty;
        Ok(Some(TypedCoreExpr {
            expr: CoreExpr::Let(name.clone(), None, Box::new(typed_value.expr), Box::new(typed_body.expr)),
            ty,
        }))
    }

    /// Synthesizes a function from the parameter type and the body's type.
    fn synthesize_lambda(&mut self, param: &String, ty: &CoreType, body: &CoreExpr, values: &ValueTypeScope, locals: &Vec<(String, CoreType)>) -> (r: Result<Option<TypedCoreExpr>>)
        ensures
            sagrees(r, synth_spec(SpecExpr::Lambda(param@, ty@, Box::new(body@)), values.spec_globals(), locals_model(locals@))),
        decreases SpecExpr::Lambda(param@, ty@, Box::new(body@)), 0nat,
    {
        let inner = extend_locals(locals, param, ty);
        let typed_body = match self.synthesize_known_expr(body, values, &inner)? {
            Some(x) => x,
            None => return Ok(None),
        };
        let output = typed_body.ty;
        Ok(Some(TypedCoreExpr {
            expr: CoreExpr::Lambda(param.clone(), ty.duplicate(), Box::new(typed_body.expr)),
            ty: CoreType::Function(Box::new(ty.duplicate()), Box::new(output)),
        }))
    }

    /// Synthesizes an application: interpolation through `show`, or a call
    /// of a function whose argument is checked against its input type.
    fn synthesize_apply(&mut self, function: &CoreExpr, arg: &CoreExpr, values: &ValueTypeScope, locals: &Vec<(String, CoreType)>) -> (r: Result<Option<TypedCoreExpr>>)
        ensures
            sagrees(r, synth_spec(SpecExpr::Apply(Box::new(function@), Box::new(arg@)), values.spec_globals(), locals_model(locals@))),
        decreases SpecExpr::Apply(Box::new(function@), Box::new(arg@)), 0nat,
    {
        if self.is_show(function, values) {
            let typed = match self.synthesize_known_expr(arg, values, locals)? {
                Some(x) => x,
                None => return Ok(None),
            };
            let showable = match typed.ty.as_unspanned() {
                CoreType::Int | CoreType::Float | CoreType::Bool | CoreType::String => true,
                _ => false,
            };
            if showable {
                return Ok(Some(TypedCoreExpr {
                    expr: CoreExpr::Apply(Box::new(self.show_function_expr(function)), Box::new(typed.expr)),
                    ty: CoreType::String,
                }));
            }
            return Err(Error::with_code(ErrorCode::TypeBadInterpolation, "cannot interpolate value"));
        }
        let typed = match self.synthesize_known_expr(function, values, locals)? {
            Some(x) => x,
            None => return Ok(None),
        };
        let (input, output) = match typed.ty.as_unspanned() {
            CoreType::Function(input, output) => (input.duplicate(), output.duplicate()),
            _ => {
                return Err(Error::with_code(ErrorCode::TypeApplyNonFunction, "type mismatch: applying non-function"));
            },
        };
        let checked = self.check_expr(arg.duplicate(), &input)?;
        Ok(Some(TypedCoreExpr { expr: CoreExpr::Apply(Box::new(typed.expr), Box::new(checked.expr)), ty: output }))
    }

    /// Synthesizes a unary operation.
    fn synthesize_unary(&mut self, op: &String, inner: &CoreExpr, values: &ValueTypeScope, locals: &Vec<(String, CoreType)>) -> (r: Result<Option<TypedCoreExpr>>)
        ensures
            sagrees(r, synth_spec(SpecExpr::Unary(op@, Box::new(inner@)), values.spec_globals(), locals_model(locals@))),
        decreases SpecExpr::Unary(op@, Box::new(inner@)), 0nat,
    {
        let typed = match self.synthesize_known_expr(inner, values, locals)? {
            Some(x) => x,
            None => return Ok(None),
        };
        let ty = match unary_result_type(op, &typed.ty) {
            Some(t) => t,
            None => return Ok(None),
        };
        Ok(Some(TypedCoreExpr { expr: CoreExpr::Unary(op.clone(), Box::new(typed.expr)), ty }))
    }

    /// Synthesizes a binary operation.
    fn synthesize_binary(&mut self, op: &String, left: &CoreExpr, right: &CoreExpr, values: &ValueTypeScope, locals: &Vec<(String, CoreType)>) -> (r: Result<Option<TypedCoreExpr>>)
        ensures
            sagrees(r, synth_spec(SpecExpr::Binary(op@, Box::new(left@), Box::new(right@)), values.spec_globals(), locals_model(locals@))),
        decreases SpecExpr::Binary(op@, Box::new(left@), Box::new(right@)), 0nat,
    {
        let l = match self.synthesize_known_expr(left, values, locals)? {
            Some(x) => x,
            None => return Ok(None),
        };
        let r = match self.synthesize_known_expr(right, values, locals)? {
            Some(x) => x,
            None => return Ok(None),
        };
        let ty = match binary_result_type(op, &l.ty, &r.ty) {
            Some(t) => t,
            None => return Ok(None),
        };
        Ok(Some(TypedCoreExpr { expr: CoreExpr::Binary(op.clone(), Box::new(l.expr), Box::new(r.expr)), ty }))
    }

    /// The error for an expression whose type cannot be synthesized.
    fn unsynthesizable_expr_error(&self, expr: &CoreExpr) -> (e: Error)
        ensures
            e.code_spec() == unsynth_code(expr@),
            e.message_spec() == unsynth_message(expr@),
            forall|i: int| 0 <= i < e.labels_spec().len() ==> (#[trigger] e.labels_spec()[i]).message@ == unsynth_message(expr@),
        decreases expr,
    {
        match expr {
            CoreExpr::Spanned(inner, span) => {
                let error = self.unsynthesizable_expr_error(inner);
                let message = error.message().to_owned();
                let ghost before = error.labels_spec();
                let labelled = error.with_label(*span, message.as_str());
                proof {
                    assert forall|i: int| 0 <= i < labelled.labels_spec().len() implies
                        (#[trigger] labelled.labels_spec()[i]).message@ == unsynth_message(expr@) by {
                        if span.start <= span.end && i < before.len() {
                            assert(labelled.labels_spec()[i] == labelled.labels_spec().drop_last()[i]);
                        }
                    }
                }
                labelled
            },
            CoreExpr::OptNone => Error::with_code(ErrorCode::TypeNoneNeedsExpected, "`none` requires an expected option type"),
            CoreExpr::List(items) => if items.len() == 0 {
                proof {
                    lemma_expr_list_view(items@);
                }
                Error::with_code(ErrorCode::TypeNoneNeedsExpected, "empty lists require an expected list type")
            } else {
                proof {
                    lemma_expr_list_view(items@);
                }
                Error::with_code(ErrorCode::TypeMismatch, "type mismatch: cannot synthesize expression type")
            },
            CoreExpr::Var(name) => Error::new(concat3("unknown identifier `", name.as_str(), "`").as_str()),
            CoreExpr::Local(_) => Error::new("internal error: invalid local reference"),
            CoreExpr::Global(_) => Error::new("internal error: invalid global reference"),
            _ => Error::with_code(ErrorCode::TypeMismatch, "type mismatch: cannot synthesize expression type"),
        }
    }

    /// The function position of an interpolation, kept as written.
    fn show_function_expr(&self, expr: &CoreExpr) -> (r: CoreExpr)
        ensures
            r@ == expr@,
    {
        match expr {
            CoreExpr::Spanned(inner, span) => CoreExpr::Spanned(Box::new(inner.duplicate()), *span),
            expr => expr.duplicate(),
        }
    }

    /// Whether the function position names `show`.
    fn is_show(&self, expr: &CoreExpr, values: &ValueTypeScope) -> (b: bool)
        ensures
            b == is_show_spec(expr@, values.spec_globals()),
        decreases expr,
    {
        match expr {
            CoreExpr::Spanned(inner, _) => self.is_show(inner, values),
            CoreExpr::Var(name) => str_eq(name.as_str(), "show"),
            CoreExpr::Global(binding) => match values.lookup_binding(*binding) {
                Some((name, _)) => str_eq(name.as_str(), "show"),
                None => false,
            },
            _ => false,
        }
    }
}

/// The result type of a unary operator applied to an operand of type `t`.
fn unary_result_type(op: &String, t: &CoreType) -> (r: Option<CoreType>)
    ensures
        match r {
            Some(x) => unary_type(op@, t@) == Some(x@),
            None => unary_type(op@, t@) is None,
        },
{
    let u = t.as_unspanned();
    let is_bool = match u { CoreType::Bool => true, _ => false };
    let is_int = match u { CoreType::Int => true, _ => false };
    let is_float = match u { CoreType::Float => true, _ => false };
    if str_eq(op.as_str(), "!") && is_bool {
        Some(CoreType::Bool)
    } else if str_eq(op.as_str(), "-") && is_int {
        Some(CoreType::Int)
    } else if str_eq(op.as_str(), "-") && is_float {
        Some(CoreType::Float)
    } else {
        None
    }
}

/// The result type of a binary operator applied to operands of types `l` and `r`.
fn binary_result_type(op: &String, l: &CoreType, r: &CoreType) -> (res: Option<CoreType>)
    ensures
        match res {
            Some(x) => binary_type(op@, l@, r@) == Some(x@),
            None => binary_type(op@, l@, r@) is None,
        },
{
    let ul = l.as_unspanned();
    let ur = r.as_unspanned();
    let ints = match (ul, ur) { (CoreType::Int, CoreType::Int) => true, _ => false };
    let floats = match (ul, ur) { (CoreType::Float, CoreType::Float) => true, _ => false };
    let strings = match (ul, ur) { (CoreType::String, CoreType::String) => true, _ => false };
    let bools = match (ul, ur) { (CoreType::Bool, CoreType::Bool) => true, _ => false };
    let o = op.as_str();
    let arith = str_eq(o, "+") || str_eq(o, "-") || str_eq(o, "*") || str_eq(o, "/");
    let order = str_eq(o, "<") || str_eq(o, "<=") || str_eq(o, ">") || str_eq(o, ">=");
    if (arith || str_eq(o, "%")) && ints {
        Some(CoreType::Int)
    } else if arith && floats {
        Some(CoreType::Float)
    } else if str_eq(o, "++") && strings {
        Some(CoreType::String)
    } else if (str_eq(o, "==") || str_eq(o, "!=")) && CoreTypeEquivalence::equivalent(l, r) {
        Some(CoreType::Bool)
    } else if order && (ints || floats) {
        Some(CoreType::Bool)
    } else if (str_eq(o, "&&") || str_eq(o, "||")) && bools {
        Some(CoreType::Bool)
    } else {
        None
    }
}


} // verus!
