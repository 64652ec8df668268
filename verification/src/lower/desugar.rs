//! Desugaring: interpolated strings become `show` calls joined with `++`,
//! method-call syntax becomes field access, and records get their fields
//! sorted with later duplicates replacing earlier ones.

use vstd::prelude::*;

use crate::core_lang::ast::{
    expr_fields_view, expr_list_view, lemma_expr_fields_view, lemma_expr_list_view,
    lemma_type_fields_view, lemma_type_fields_view_model, strings_view, type_fields_view, CoreDecl,
    CoreExpr, CoreImport, CoreModule, CoreType, SpecExpr, SpecType,
};
use crate::fields::{
    entry_keys, insert_all, lemma_insert_is_sorted_insert, model, sorted_insert, sorted_keys,
    FieldMap,
};
use crate::syntax::surface::{Decl, Expr, FileAst, StrPart, Type};

verus! {

broadcast use vstd::std_specs::vec::group_vec_axioms;

/// The core model of a surface type.
pub open spec fn lower_type_spec(t: Type) -> SpecType
    decreases t,
{
    match t {
        Type::Spanned(inner, span) => SpecType::Spanned(Box::new(lower_type_spec(*inner)), span),
        Type::Int => SpecType::Int,
        Type::Float => SpecType::Float,
        Type::Bool => SpecType::Bool,
        Type::String => SpecType::Str,
        Type::Option(inner) => SpecType::Option(Box::new(lower_type_spec(*inner))),
        Type::List(inner) => SpecType::List(Box::new(lower_type_spec(*inner))),
        Type::Record(fields) => SpecType::Record(insert_all(lower_type_fields(fields@))),
        Type::LiteralUnion(choices) => SpecType::LiteralUnion(strings_view(choices@)),
        Type::Refinement { binder, base, pred } => SpecType::Refinement {
            binder: binder@,
            base: Box::new(lower_type_spec(*base)),
            pred: Box::new(lower_expr_spec(*pred)),
        },
        Type::Function(input, output) => SpecType::Function(
            Box::new(lower_type_spec(*input)),
            Box::new(lower_type_spec(*output)),
        ),
        Type::Alias(name) => SpecType::Alias(name@),
    }
}

/// Record field types lowered in place, in the order written.
pub open spec fn lower_type_fields(fs: Seq<(String, Type)>) -> Seq<(Seq<char>, SpecType)>
    decreases fs,
{
    if fs.len() == 0 {
        Seq::empty()
    } else {
        lower_type_fields(fs.drop_last()).push((fs.last().0@, lower_type_spec(fs.last().1)))
    }
}

/// The core model of a surface expression.
pub open spec fn lower_expr_spec(e: Expr) -> SpecExpr
    decreases e,
{
    match e {
        Expr::Spanned(inner, span) => SpecExpr::Spanned(Box::new(lower_expr_spec(*inner)), span),
        Expr::Int(v) => SpecExpr::Int(v),
        Expr::Float(text) => SpecExpr::Float(text@),
        Expr::Bool(b) => SpecExpr::Bool(b),
        Expr::String(s) => SpecExpr::Str(s@),
        Expr::Interp(parts) => {
            let pieces = interp_pieces(parts@);
            if pieces.len() == 0 {
                SpecExpr::Str(Seq::empty())
            } else {
                concat_pieces(pieces)
            }
        },
        Expr::OptNone => SpecExpr::OptNone,
        Expr::OptSome(inner) => SpecExpr::OptSome(Box::new(lower_expr_spec(*inner))),
        Expr::Var(name) => SpecExpr::Var(name@),
        Expr::List(items) => SpecExpr::List(lower_list(items@)),
        Expr::Record(fields) => SpecExpr::Record(insert_all(lower_expr_fields(fields@))),
        Expr::Field(inner, name) => SpecExpr::Field(Box::new(lower_expr_spec(*inner)), name@),
        Expr::Dot(inner, name) => SpecExpr::Field(Box::new(lower_expr_spec(*inner)), name@),
        Expr::If(c, t, f) => SpecExpr::If(
            Box::new(lower_expr_spec(*c)),
            Box::new(lower_expr_spec(*t)),
            Box::new(lower_expr_spec(*f)),
        ),
        Expr::Let(name, ann, value, body) => SpecExpr::Let(
            name@,
            match ann {
                Some(ty) => Some(lower_type_spec(ty)),
                None => None,
            },
            Box::new(lower_expr_spec(*value)),
            Box::new(lower_expr_spec(*body)),
        ),
        Expr::Lambda(param, ty, body) => SpecExpr::Lambda(param@, lower_type_spec(ty), Box::new(lower_expr_spec(*body))),
        Expr::Apply(f, a) => SpecExpr::Apply(Box::new(lower_expr_spec(*f)), Box::new(lower_expr_spec(*a))),
        Expr::Ascribe(inner, ty) => SpecExpr::Ascribe(Box::new(lower_expr_spec(*inner)), lower_type_spec(ty)),
        Expr::Unary(op, inner) => SpecExpr::Unary(op@, Box::new(lower_expr_spec(*inner))),
        Expr::Binary(op, l, r) => SpecExpr::Binary(op@, Box::new(lower_expr_spec(*l)), Box::new(lower_expr_spec(*r))),
    }
}

pub open spec fn lower_list(items: Seq<Expr>) -> Seq<SpecExpr>
    decreases items,
{
    if items.len() == 0 {
        Seq::empty()
    } else {
        lower_list(items.drop_last()).push(lower_expr_spec(items.last()))
    }
}

/// Record fields lowered in place, in the order written.
pub open spec fn lower_expr_fields(fs: Seq<(String, Expr)>) -> Seq<(Seq<char>, SpecExpr)>
    decreases fs,
{
    if fs.len() == 0 {
        Seq::empty()
    } else {
        lower_expr_fields(fs.drop_last()).push((fs.last().0@, lower_expr_spec(fs.last().1)))
    }
}

/// The pieces of an interpolated string: non-empty text as string
/// literals, expressions as `show` applied to them.
pub open spec fn interp_pieces(parts: Seq<StrPart>) -> Seq<SpecExpr>
    decreases parts,
{
    if parts.len() == 0 {
        Seq::empty()
    } else {
        interp_pieces(parts.drop_last()) + match parts.last() {
            StrPart::Text(t) => if t@.len() == 0 { Seq::empty() } else { seq![SpecExpr::Str(t@)] },
            StrPart::Expr(e) => seq![SpecExpr::Apply(Box::new(SpecExpr::Var("show"@)), Box::new(lower_expr_spec(e)))],
        }
    }
}

/// The pieces joined with `++` from the left.
pub open spec fn concat_pieces(pieces: Seq<SpecExpr>) -> SpecExpr
    decreases pieces.len(),
{
    if pieces.len() <= 1 {
        pieces[0]
    } else {
        SpecExpr::Binary("++"@, Box::new(concat_pieces(pieces.drop_last())), Box::new(pieces.last()))
    }
}

/// An interpolated string as one expression; no pieces is the empty string.
pub open spec fn interp_spec(parts: Seq<StrPart>) -> SpecExpr {
    let pieces = interp_pieces(parts);
    if pieces.len() == 0 {
        SpecExpr::Str(Seq::empty())
    } else {
        concat_pieces(pieces)
    }
}

/// Lowers types.
pub struct TypeLowerer;

/// Lowers expressions.
pub struct ExprLowerer;

/// Joins the pieces of an interpolated string.
pub struct InterpolationLowerer;

impl TypeLowerer {
    pub fn lower(&mut self, ty: Type) -> (r: CoreType)
        ensures
            r@ == lower_type_spec(ty),
        decreases ty,
    {
        match ty {
            Type::Spanned(inner, span) => CoreType::Spanned(Box::new(self.lower(*inner)), span),
            Type::Int => CoreType::Int,
            Type::Float => CoreType::Float,
            Type::Bool => CoreType::Bool,
            Type::String => CoreType::String,
            Type::Option(inner) => CoreType::Option(Box::new(self.lower(*inner))),
            Type::List(inner) => CoreType::List(Box::new(self.lower(*inner))),
            Type::Record(fields) => {
                proof {
                    assert(decreases_to!(Type::Record(fields) => fields@));
                }
                CoreType::Record(self.lower_fields(fields))
            },
            Type::LiteralUnion(choices) => CoreType::LiteralUnion(choices),
            Type::Refinement { binder, base, pred } => CoreType::Refinement {
                binder,
                base: Box::new(self.lower(*base)),
                pred: Box::new(ExprLowerer.lower(*pred)),
            },
            Type::Function(input, output) => CoreType::Function(Box::new(self.lower(*input)), Box::new(self.lower(*output))),
            Type::Alias(name) => CoreType::Alias(name),
        }
    }

    /// Field types inserted in order into a sorted field map.
    #[verifier::loop_isolation(false)]
    fn lower_fields(&mut self, fields: Vec<(String, Type)>) -> (r: FieldMap<CoreType>)
        ensures
            type_fields_view(r.entries@) == insert_all(lower_type_fields(fields@)),
            sorted_keys(entry_keys(r.entries@)),
        decreases fields@,
    {
        let ghost all = fields@;
        let mut out: FieldMap<CoreType> = FieldMap::new();
        let mut rest = fields;
        let n = rest.len();
        let mut i: usize = 0;
        proof {
            lemma_type_fields_view(out.entries@);
            assert(all.take(0) =~= Seq::<(String, Type)>::empty());
        }
        while rest.len() > 0
            invariant
                i + rest@.len() == all.len(),
                all.len() == n,
                forall|j: int| 0 <= j < rest@.len() ==> #[trigger] rest@[j] == all[i + j],
                type_fields_view(out.entries@) == insert_all(lower_type_fields(all.take(i as int))),
                sorted_keys(entry_keys(out.entries@)),
            decreases rest.len(),
        {
            let ghost before = rest@;
            let (name, ty) = rest.remove(0);
            assert(forall|j: int| 0 <= j < rest@.len() ==> rest@[j] == before[j + 1]);
            assert(all[i as int] == (name, ty));
            proof {
                assert(decreases_to!(all => all[i as int]));
                assert(decreases_to!(all[i as int] => all[i as int].1));
            }
            let ghost tyv = ty;
            let lowered = self.lower(ty);
            let ghost prev = out.entries@;
            let ghost key = name;
            let ghost value = lowered;
            let replaced = out.insert(name, lowered);
            proof {
                lemma_type_fields_view_model(prev);
                lemma_type_fields_view_model(out.entries@);
                lemma_insert_is_sorted_insert(prev, out.entries@, key, value, replaced, |t: CoreType| crate::core_lang::ast::type_view(t));
                assert(all.take(i + 1).drop_last() =~= all.take(i as int));
                assert(all.take(i + 1).last() == all[i as int]);
                let lf = lower_type_fields(all.take(i as int));
                let item = (key@, lower_type_spec(tyv));
                assert(lower_type_fields(all.take(i + 1)) == lf.push(item));
                assert(lf.push(item).drop_last() =~= lf);
                assert(insert_all(lf.push(item)) == sorted_insert(insert_all(lf), item.0, item.1));
            }
            i = i + 1;
        }
        assert(all.take(i as int) =~= all);
        out
    }
}

impl ExprLowerer {
    pub fn lower(&mut self, expr: Expr) -> (r: CoreExpr)
        ensures
            r@ == lower_expr_spec(expr),
        decreases expr,
    {
        match expr {
            Expr::Spanned(inner, span) => CoreExpr::Spanned(Box::new(self.lower(*inner)), span),
            Expr::Int(v) => CoreExpr::Int(v),
            Expr::Float(text) => CoreExpr::Float(text),
            Expr::Bool(b) => CoreExpr::Bool(b),
            Expr::String(s) => CoreExpr::String(s),
            Expr::Interp(parts) => {
                proof {
                    assert(decreases_to!(Expr::Interp(parts) => parts@));
                }
                InterpolationLowerer.lower(self, parts)
            },
            Expr::OptNone => CoreExpr::OptNone,
            Expr::OptSome(inner) => CoreExpr::OptSome(Box::new(self.lower(*inner))),
            Expr::Var(name) => CoreExpr::Var(name),
            Expr::List(items) => {
                proof {
                    assert(decreases_to!(Expr::List(items) => items@));
                }
                CoreExpr::List(self.lower_list(items))
            },
            Expr::Record(fields) => {
                proof {
                    assert(decreases_to!(Expr::Record(fields) => fields@));
                }
                CoreExpr::Record(self.lower_fields(fields))
            },
            Expr::Field(inner, name) => CoreExpr::Field(Box::new(self.lower(*inner)), name),
            Expr::Dot(inner, name) => CoreExpr::Field(Box::new(self.lower(*inner)), name),
            Expr::If(c, t, f) => CoreExpr::If(Box::new(self.lower(*c)), Box::new(self.lower(*t)), Box::new(self.lower(*f))),
            Expr::Let(name, annotation, value, body) => {
                let annotation = match annotation {
                    Some(ty) => Some(TypeLowerer.lower(ty)),
                    None => None,
                };
                CoreExpr::Let(name, annotation, Box::new(self.lower(*value)), Box::new(self.lower(*body)))
            },
            Expr::Lambda(param, ty, body) => CoreExpr::Lambda(param, TypeLowerer.lower(ty), Box::new(self.lower(*body))),
            Expr::Apply(f, a) => CoreExpr::Apply(Box::new(self.lower(*f)), Box::new(self.lower(*a))),
            Expr::Ascribe(inner, ty) => CoreExpr::Ascribe(Box::new(self.lower(*inner)), TypeLowerer.lower(ty)),
            Expr::Unary(op, inner) => CoreExpr::Unary(op, Box::new(self.lower(*inner))),
            Expr::Binary(op, l, r) => CoreExpr::Binary(op, Box::new(self.lower(*l)), Box::new(self.lower(*r))),
        }
    }

    #[verifier::loop_isolation(false)]
    fn lower_list(&mut self, items: Vec<Expr>) -> (r: Vec<CoreExpr>)
        ensures
            expr_list_view(r@) == lower_list(items@),
        decreases items@,
    {
        let ghost all = items@;
        let mut out: Vec<CoreExpr> = Vec::new();
        let mut rest = items;
        let n = rest.len();
        let mut i: usize = 0;
        proof {
            lemma_expr_list_view(out@);
            assert(all.take(0) =~= Seq::<Expr>::empty());
        }
        while rest.len() > 0
            invariant
                i + rest@.len() == all.len(),
                all.len() == n,
                forall|j: int| 0 <= j < rest@.len() ==> #[trigger] rest@[j] == all[i + j],
                expr_list_view(out@) == lower_list(all.take(i as int)),
            decreases rest.len(),
        {
            let ghost before = rest@;
            let item = rest.remove(0);
            assert(forall|j: int| 0 <= j < rest@.len() ==> rest@[j] == before[j + 1]);
            assert(all[i as int] == item);
            proof {
                assert(decreases_to!(all => all[i as int]));
            }
            let lowered = self.lower(item);
            let ghost prev = out@;
            out.push(lowered);
            proof {
                lemma_expr_list_view(prev);
                lemma_expr_list_view(out@);
                assert(expr_list_view(out@) =~= expr_list_view(prev).push(lowered@));
                assert(all.take(i + 1).drop_last() =~= all.take(i as int));
                assert(all.take(i + 1).last() == all[i as int]);
            }
            i = i + 1;
        }
        assert(all.take(i as int) =~= all);
        out
    }

    #[verifier::loop_isolation(false)]
    fn lower_fields(&mut self, fields: Vec<(String, Expr)>) -> (r: FieldMap<CoreExpr>)
        ensures
            expr_fields_view(r.entries@) == insert_all(lower_expr_fields(fields@)),
            sorted_keys(entry_keys(r.entries@)),
        decreases fields@,
    {
        let ghost all = fields@;
        let mut out: FieldMap<CoreExpr> = FieldMap::new();
        let mut rest = fields;
        let n = rest.len();
        let mut i: usize = 0;
        proof {
            lemma_expr_fields_view(out.entries@);
            assert(expr_fields_view(out.entries@) =~= Seq::<(Seq<char>, SpecExpr)>::empty());
            assert(all.take(0) =~= Seq::<(String, Expr)>::empty());
        }
        while rest.len() > 0
            invariant
                i + rest@.len() == all.len(),
                all.len() == n,
                forall|j: int| 0 <= j < rest@.len() ==> #[trigger] rest@[j] == all[i + j],
                expr_fields_view(out.entries@) == insert_all(lower_expr_fields(all.take(i as int))),
                sorted_keys(entry_keys(out.entries@)),
            decreases rest.len(),
        {
            let ghost before = rest@;
            let (name, value) = rest.remove(0);
            assert(forall|j: int| 0 <= j < rest@.len() ==> rest@[j] == before[j + 1]);
            assert(all[i as int] == (name, value));
            proof {
                assert(decreases_to!(all => all[i as int]));
                assert(decreases_to!(all[i as int] => all[i as int].1));
            }
            let ghost ev = value;
            let lowered = self.lower(value);
            let ghost prev = out.entries@;
            let ghost key = name;
            let ghost v = lowered;
            let replaced = out.insert(name, lowered);
            proof {
                lemma_expr_fields_model(prev);
                lemma_expr_fields_model(out.entries@);
                lemma_insert_is_sorted_insert(prev, out.entries@, key, v, replaced, |e: CoreExpr| e@);
                assert(all.take(i + 1).drop_last() =~= all.take(i as int));
                assert(all.take(i + 1).last() == all[i as int]);
                let lf = lower_expr_fields(all.take(i as int));
                let item = (key@, lower_expr_spec(ev));
                assert(lower_expr_fields(all.take(i + 1)) == lf.push(item));
                assert(lf.push(item).drop_last() =~= lf);
                assert(insert_all(lf.push(item)) == sorted_insert(insert_all(lf), item.0, item.1));
            }
            i = i + 1;
        }
        assert(all.take(i as int) =~= all);
        out
    }
}

/// The expression field view is the generic model under the expression view.
proof fn lemma_expr_fields_model(s: Seq<(String, CoreExpr)>)
    ensures
        expr_fields_view(s) == model(s, |e: CoreExpr| e@),
{
    lemma_expr_fields_view(s);
    assert(expr_fields_view(s) =~= model(s, |e: CoreExpr| e@));
}

impl InterpolationLowerer {
    /// The pieces joined with `++`; no pieces give the empty string.
    #[verifier::loop_isolation(false)]
    pub fn lower(&mut self, exprs: &mut ExprLowerer, parts: Vec<StrPart>) -> (r: CoreExpr)
        ensures
            r@ == interp_spec(parts@),
        decreases parts@,
    {
        let ghost all = parts@;
        let mut acc: Option<CoreExpr> = None;
        let mut rest = parts;
        let n = rest.len();
        let mut i: usize = 0;
        assert(all.take(0) =~= Seq::<StrPart>::empty());
        while rest.len() > 0
            invariant
                i + rest@.len() == all.len(),
                all.len() == n,
                forall|j: int| 0 <= j < rest@.len() ==> #[trigger] rest@[j] == all[i + j],
                match acc {
                    Some(e) => interp_pieces(all.take(i as int)).len() > 0 && e@ == concat_pieces(interp_pieces(all.take(i as int))),
                    None => interp_pieces(all.take(i as int)).len() == 0,
                },
            decreases rest.len(),
        {
            let ghost before = rest@;
            let part = rest.remove(0);
            assert(forall|j: int| 0 <= j < rest@.len() ==> rest@[j] == before[j + 1]);
            assert(all[i as int] == part);
            assert(all.take(i + 1).drop_last() =~= all.take(i as int));
            assert(all.take(i + 1).last() == all[i as int]);
            let ghost prev_pieces = interp_pieces(all.take(i as int));
            let piece = match part {
                StrPart::Text(text) => {
                    if text.as_str().is_empty() {
                        assert(interp_pieces(all.take(i + 1)) =~= prev_pieces);
                        None
                    } else {
                        assert(interp_pieces(all.take(i + 1)) =~= prev_pieces.push(SpecExpr::Str(text@)));
                        Some(CoreExpr::String(text))
                    }
                },
                StrPart::Expr(e) => {
                    proof {
                        assert(decreases_to!(all => all[i as int]));
                        assert(decreases_to!(all[i as int] => e));
                    }
                    let ghost ev = e;
                    let lowered = exprs.lower(e);
                    assert(lowered@ == lower_expr_spec(ev));
                    let show = "show".to_owned();
                    assert(show@ == "show"@);
                    let var = CoreExpr::Var(show);
                    assert(var@ == SpecExpr::Var("show"@));
                    let piece = CoreExpr::Apply(Box::new(var), Box::new(lowered));
                    assert(all.take(i + 1).last() == StrPart::Expr(ev));
                    assert(piece@ == SpecExpr::Apply(Box::new(SpecExpr::Var("show"@)), Box::new(lower_expr_spec(ev))));
                    assert(interp_pieces(all.take(i + 1)) =~= prev_pieces.push(piece@));
                    Some(piece)
                },
            };
            let ghost new_pieces = interp_pieces(all.take(i + 1));
            acc = match (acc, piece) {
                (None, Some(p)) => {
                    assert(new_pieces =~= seq![p@]);
                    Some(p)
                },
                (Some(left), Some(p)) => {
                    let op = "++".to_owned();
                    let ghost lv = left@;
                    let ghost pv = p@;
                    let joined = CoreExpr::Binary(op, Box::new(left), Box::new(p));
                    proof {
                        assert(new_pieces.drop_last() =~= prev_pieces);
                        assert(new_pieces.last() == pv);
                        assert(joined@ == SpecExpr::Binary("++"@, Box::new(lv), Box::new(pv)));
                    }
                    Some(joined)
                },
                (a, None) => a,
            };
            i = i + 1;
        }
        assert(all.take(i as int) =~= all);
        match acc {
            Some(e) => e,
            None => CoreExpr::String(String::new()),
        }
    }
}


/// A lowered declaration corresponds to a surface one.
pub open spec fn decl_lowered(d: Decl, c: CoreDecl) -> bool {
    match d {
        Decl::Native { export, name, ty } => c matches CoreDecl::Native { export: e2, name: n2, ty: t2 }
            && e2 == export && n2 == name && t2@ == lower_type_spec(ty),
        Decl::Type { export, name, ty } => c matches CoreDecl::Type { export: e2, name: n2, ty: t2 }
            && e2 == export && n2 == name && t2@ == lower_type_spec(ty),
        Decl::Let { export, name, annotation, expr } => c matches CoreDecl::Let { export: e2, name: n2, annotation: a2, expr: x2 }
            && e2 == export && n2 == name && x2@ == lower_expr_spec(expr) && match annotation {
                Some(t) => a2 matches Some(t2) && t2@ == lower_type_spec(t),
                None => a2 is None,
            },
        Decl::Import { .. } => false,
    }
}

/// The declarations other than imports, in order.
pub open spec fn non_imports(ds: Seq<Decl>) -> Seq<Decl>
    decreases ds.len(),
{
    if ds.len() == 0 {
        Seq::empty()
    } else if ds.last() is Import {
        non_imports(ds.drop_last())
    } else {
        non_imports(ds.drop_last()).push(ds.last())
    }
}

/// The imports, in order, as paths and names.
pub open spec fn imports_of(ds: Seq<Decl>) -> Seq<(Seq<char>, Seq<Seq<char>>)>
    decreases ds.len(),
{
    if ds.len() == 0 {
        Seq::empty()
    } else {
        match ds.last() {
            Decl::Import { path, names } => imports_of(ds.drop_last()).push((path@, strings_view(names@))),
            _ => imports_of(ds.drop_last()),
        }
    }
}

pub open spec fn import_view(i: CoreImport) -> (Seq<char>, Seq<Seq<char>>) {
    (i.path@, strings_view(i.names@))
}

/// A declaration after lowering: an import, or a core declaration.
pub enum LoweredDecl {
    Import(CoreImport),
    Decl(CoreDecl),
}

/// Lowers declarations.
pub struct DeclLowerer;

impl DeclLowerer {
    pub fn lower(&mut self, decl: Decl) -> (r: LoweredDecl)
        ensures
            match decl {
                Decl::Import { path, names } => r matches LoweredDecl::Import(i) && i.path == path && i.names == names,
                _ => r matches LoweredDecl::Decl(c) && decl_lowered(decl, c),
            },
    {
        match decl {
            Decl::Import { path, names } => LoweredDecl::Import(CoreImport { path, names }),
            Decl::Native { export, name, ty } => LoweredDecl::Decl(CoreDecl::Native { export, name, ty: TypeLowerer.lower(ty) }),
            Decl::Type { export, name, ty } => LoweredDecl::Decl(CoreDecl::Type { export, name, ty: TypeLowerer.lower(ty) }),
            Decl::Let { export, name, annotation, expr } => {
                let annotation = match annotation {
                    Some(ty) => Some(TypeLowerer.lower(ty)),
                    None => None,
                };
                LoweredDecl::Decl(CoreDecl::Let { export, name, annotation, expr: ExprLowerer.lower(expr) })
            },
        }
    }
}

/// Lowers whole files.
pub struct ModuleLowerer;

impl ModuleLowerer {
    pub fn lower(&mut self, file: FileAst) -> (m: CoreModule)
        ensures
            m.decls@.len() == non_imports(file.decls@).len(),
            forall|i: int| 0 <= i < m.decls@.len() ==> decl_lowered(#[trigger] non_imports(file.decls@)[i], m.decls@[i]),
            m.imports@.map_values(|i: CoreImport| import_view(i)) == imports_of(file.decls@),
            match file.output {
                Some(e) => m.output matches Some(o) && o@ == lower_expr_spec(e),
                None => m.output is None,
            },
    {
        let ghost all = file.decls@;
        let mut imports: Vec<CoreImport> = Vec::new();
        let mut decls: Vec<CoreDecl> = Vec::new();
        let mut rest = file.decls;
        let n = rest.len();
        let mut i: usize = 0;
        assert(all.take(0) =~= Seq::<Decl>::empty());
        assert(imports@.map_values(|i: CoreImport| import_view(i)) =~= Seq::<(Seq<char>, Seq<Seq<char>>)>::empty());
        while rest.len() > 0
            invariant
                i + rest@.len() == all.len(),
                all.len() == n,
                forall|j: int| 0 <= j < rest@.len() ==> #[trigger] rest@[j] == all[i + j],
                decls@.len() == non_imports(all.take(i as int)).len(),
                forall|j: int| 0 <= j < decls@.len() ==> decl_lowered(#[trigger] non_imports(all.take(i as int))[j], decls@[j]),
                imports@.map_values(|i: CoreImport| import_view(i)) == imports_of(all.take(i as int)),
            decreases rest.len(),
        {
            let ghost before = rest@;
            let decl = rest.remove(0);
            assert(forall|j: int| 0 <= j < rest@.len() ==> rest@[j] == before[j + 1]);
            assert(all[i as int] == decl);
            assert(all.take(i + 1).drop_last() =~= all.take(i as int));
            assert(all.take(i + 1).last() == all[i as int]);
            let ghost d = decl;
            let ghost prev_decls = decls@;
            let ghost prev_imports = imports@;
            match DeclLowerer.lower(decl) {
                LoweredDecl::Import(import) => {
                    imports.push(import);
                    proof {
                        assert(imports@.map_values(|i: CoreImport| import_view(i)) =~= prev_imports.map_values(|i: CoreImport| import_view(i)).push(import_view(import)));
                    }
                },
                LoweredDecl::Decl(c) => {
                    decls.push(c);
                    proof {
                        assert(non_imports(all.take(i + 1)) == non_imports(all.take(i as int)).push(d));
                        assert forall|j: int| 0 <= j < decls@.len() implies decl_lowered(#[trigger] non_imports(all.take(i + 1))[j], decls@[j]) by {
                            if j < prev_decls.len() {
                                assert(decls@[j] == prev_decls[j]);
                            }
                        }
                    }
                },
            }
            i = i + 1;
        }
        assert(all.take(i as int) =~= all);
        let output = match file.output {
            Some(e) => Some(ExprLowerer.lower(e)),
            None => None,
        };
        CoreModule { imports, decls, output }
    }
}

/// `m` is the lowering of `file`: its imports, its other declarations
/// each lowered in order, and its output lowered.
pub open spec fn file_lowered(file: FileAst, m: CoreModule) -> bool {
    &&& m.decls@.len() == non_imports(file.decls@).len()
    &&& forall|i: int| 0 <= i < m.decls@.len() ==> decl_lowered(#[trigger] non_imports(file.decls@)[i], m.decls@[i])
    &&& m.imports@.map_values(|i: CoreImport| import_view(i)) == imports_of(file.decls@)
    &&& match file.output {
        Some(e) => m.output matches Some(o) && o@ == lower_expr_spec(e),
        None => m.output is None,
    }
}

/// Lowers surface files, types and expressions to the core language.
pub struct SurfaceToCoreLowerer {
    modules: ModuleLowerer,
    types: TypeLowerer,
    exprs: ExprLowerer,
}

impl SurfaceToCoreLowerer {
    pub fn new() -> (l: SurfaceToCoreLowerer) {
        SurfaceToCoreLowerer { modules: ModuleLowerer, types: TypeLowerer, exprs: ExprLowerer }
    }

    /// Lowers a file: imports and declarations in order, and the output.
    pub fn lower_file(&mut self, file: FileAst) -> (m: CoreModule)
        ensures
            file_lowered(file, m),
            m.decls@.len() == non_imports(file.decls@).len(),
            forall|i: int| 0 <= i < m.decls@.len() ==> decl_lowered(#[trigger] non_imports(file.decls@)[i], m.decls@[i]),
            m.imports@.map_values(|i: CoreImport| import_view(i)) == imports_of(file.decls@),
            match file.output {
                Some(e) => m.output matches Some(o) && o@ == lower_expr_spec(e),
                None => m.output is None,
            },
    {
        self.modules.lower(file)
    }

    /// Lowers a type.
    pub fn lower_type(&mut self, ty: Type) -> (r: CoreType)
        ensures
            r@ == lower_type_spec(ty),
    {
        self.types.lower(ty)
    }

    /// Lowers an expression.
    pub fn lower_expr(&mut self, expr: Expr) -> (r: CoreExpr)
        ensures
            r@ == lower_expr_spec(expr),
    {
        self.exprs.lower(expr)
    }
}

} // verus!
