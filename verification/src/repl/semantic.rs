//! The type names the REPL knows of: the built-in ones and those learned
//! from the declarations entered so far.

use vstd::prelude::*;

use crate::core_lang::ast::strings_view;
use crate::syntax::surface::{Decl, Expr, FileAst, StrPart, Type};
use crate::text::str_eq;

verus! {

broadcast use vstd::std_specs::vec::group_vec_axioms;

/// The type names a type mentions, in order.
pub open spec fn type_names(t: Type) -> Seq<Seq<char>>
    decreases t,
{
    match t {
        Type::Spanned(inner, _) => type_names(*inner),
        Type::Option(inner) => type_names(*inner),
        Type::List(inner) => type_names(*inner),
        Type::Record(fields) => field_type_names(fields@),
        Type::Refinement { base, pred, .. } => type_names(*base) + expr_names(*pred),
        Type::Function(a, b) => type_names(*a) + type_names(*b),
        Type::Alias(name) => seq![name@],
        _ => Seq::empty(),
    }
}

pub open spec fn field_type_names(fields: Seq<(String, Type)>) -> Seq<Seq<char>>
    decreases fields,
{
    if fields.len() == 0 {
        Seq::empty()
    } else {
        type_names(fields[0].1) + field_type_names(fields.drop_first())
    }
}

pub open spec fn annotation_names(a: Option<Type>) -> Seq<Seq<char>> {
    match a {
        Some(t) => type_names(t),
        None => Seq::empty(),
    }
}

/// The type names the annotations inside an expression mention, in order.
pub open spec fn expr_names(e: Expr) -> Seq<Seq<char>>
    decreases e,
{
    match e {
        Expr::Spanned(inner, _) => expr_names(*inner),
        Expr::Interp(parts) => part_names(parts@),
        Expr::OptSome(x) => expr_names(*x),
        Expr::Field(x, _) => expr_names(*x),
        Expr::Dot(x, _) => expr_names(*x),
        Expr::Unary(_, x) => expr_names(*x),
        Expr::List(items) => list_names(items@),
        Expr::Record(fields) => field_expr_names(fields@),
        Expr::If(c, t, f) => expr_names(*c) + expr_names(*t) + expr_names(*f),
        Expr::Let(_, annotation, value, body) => match annotation {
            Some(t) => type_names(t) + expr_names(*value) + expr_names(*body),
            None => expr_names(*value) + expr_names(*body),
        },
        Expr::Lambda(_, ty, body) => type_names(ty) + expr_names(*body),
        Expr::Apply(f, a) => expr_names(*f) + expr_names(*a),
        Expr::Binary(_, a, b) => expr_names(*a) + expr_names(*b),
        Expr::Ascribe(x, ty) => expr_names(*x) + type_names(ty),
        _ => Seq::empty(),
    }
}

pub open spec fn part_names(parts: Seq<StrPart>) -> Seq<Seq<char>>
    decreases parts,
{
    if parts.len() == 0 {
        Seq::empty()
    } else {
        match parts[0] {
            StrPart::Expr(e) => expr_names(e) + part_names(parts.drop_first()),
            StrPart::Text(_) => part_names(parts.drop_first()),
        }
    }
}

pub open spec fn list_names(items: Seq<Expr>) -> Seq<Seq<char>>
    decreases items,
{
    if items.len() == 0 {
        Seq::empty()
    } else {
        expr_names(items[0]) + list_names(items.drop_first())
    }
}

pub open spec fn field_expr_names(fields: Seq<(String, Expr)>) -> Seq<Seq<char>>
    decreases fields,
{
    if fields.len() == 0 {
        Seq::empty()
    } else {
        expr_names(fields[0].1) + field_expr_names(fields.drop_first())
    }
}

/// Whether a name starts with an ASCII capital letter.
pub open spec fn starts_upper(name: Seq<char>) -> bool {
    name.len() > 0 && 'A' <= name[0] && name[0] <= 'Z'
}

/// The imported names that start with a capital letter, in order.
pub open spec fn upper_names(names: Seq<Seq<char>>) -> Seq<Seq<char>>
    decreases names.len(),
{
    if names.len() == 0 {
        Seq::empty()
    } else if starts_upper(names[0]) {
        seq![names[0]] + upper_names(names.drop_first())
    } else {
        upper_names(names.drop_first())
    }
}

/// The type names a declaration declares or mentions.
pub open spec fn decl_names(d: Decl) -> Seq<Seq<char>> {
    match d {
        Decl::Import { names, .. } => upper_names(strings_view(names@)),
        Decl::Native { ty, .. } => type_names(ty),
        Decl::Type { name, ty, .. } => seq![name@] + type_names(ty),
        Decl::Let { annotation, expr, .. } => annotation_names(annotation) + expr_names(expr),
    }
}

pub open spec fn decls_names(ds: Seq<Decl>) -> Seq<Seq<char>>
    decreases ds.len(),
{
    if ds.len() == 0 {
        Seq::empty()
    } else {
        decl_names(ds[0]) + decls_names(ds.drop_first())
    }
}

/// The type names of a file's declarations, in order.
pub open spec fn file_names(f: FileAst) -> Seq<Seq<char>> {
    decls_names(f.decls@)
}

/// The type names the REPL knows of.
#[derive(Debug)]
pub struct SemanticState {
    types: Vec<String>,
}

impl SemanticState {
    pub closed spec fn names_spec(&self) -> Seq<Seq<char>> {
        strings_view(self.types@)
    }

    /// The built-in type names.
    pub fn new() -> (s: SemanticState)
        ensures
            s.names_spec() == seq!["Int"@, "Float"@, "Bool"@, "String"@],
    {
        let types = vec!["Int".to_owned(), "Float".to_owned(), "Bool".to_owned(), "String".to_owned()];
        let s = SemanticState { types };
        assert(s.names_spec() =~= seq!["Int"@, "Float"@, "Bool"@, "String"@]);
        s
    }

    /// Whether `name` is a known type name.
    pub fn contains_type(&self, name: &str) -> (b: bool)
        ensures
            b == self.names_spec().contains(name@),
    {
        let mut i: usize = 0;
        while i < self.types.len()
            invariant
                i <= self.types@.len(),
                forall|j: int| 0 <= j < i ==> self.types@[j]@ != name@,
            decreases self.types.len() - i,
        {
            if str_eq(self.types[i].as_str(), name) {
                assert(self.names_spec()[i as int] == name@);
                return true;
            }
            i = i + 1;
        }
        assert forall|j: int| 0 <= j < self.names_spec().len() implies self.names_spec()[j] != name@ by {
            assert(self.names_spec()[j] == self.types@[j]@);
        }
        false
    }

    /// Learns the type names the file's declarations declare or mention.
    pub fn learn_file(&mut self, file: &FileAst)
        ensures
            final(self).names_spec() == old(self).names_spec() + file_names(*file),
    {
        let ghost start = self.types@;
        let ds = &file.decls;
        proof {
            assert(ds@.skip(0) =~= ds@);
        }
        let mut i: usize = 0;
        while i < ds.len()
            invariant
                i <= ds@.len(),
                ds@ == file.decls@,
                strings_view(self.types@) + decls_names(ds@.skip(i as int)) == strings_view(start) + decls_names(ds@),
            decreases ds.len() - i,
        {
            proof {
                assert(ds@.skip(i as int).drop_first() =~= ds@.skip(i + 1));
                assert(ds@.skip(i as int)[0] == ds@[i as int]);
            }
            let ghost before = strings_view(self.types@);
            collect_decl(&ds[i], &mut self.types);
            proof {
                assert(strings_view(self.types@) + decls_names(ds@.skip(i + 1)) =~= before + decls_names(ds@.skip(i as int)));
            }
            i = i + 1;
        }
        proof {
            assert(ds@.skip(i as int) =~= Seq::<Decl>::empty());
            assert(strings_view(self.types@) + Seq::<Seq<char>>::empty() =~= strings_view(self.types@));
        }
    }
}

fn push_name(out: &mut Vec<String>, name: &String)
    ensures
        strings_view(final(out)@) == strings_view(old(out)@) + seq![name@],
{
    let ghost before = out@;
    out.push(name.clone());
    assert(strings_view(out@) =~= strings_view(before) + seq![name@]);
}

fn collect_decl(d: &Decl, out: &mut Vec<String>)
    ensures
        strings_view(final(out)@) == strings_view(old(out)@) + decl_names(*d),
{
    match d {
        Decl::Import { names, .. } => {
            let ghost ns = strings_view(names@);
            proof {
                assert(ns.skip(0) =~= ns);
            }
            let ghost start = strings_view(out@);
            let mut i: usize = 0;
            while i < names.len()
                invariant
                    i <= names@.len(),
                    ns == strings_view(names@),
                    strings_view(out@) + upper_names(ns.skip(i as int)) == start + upper_names(ns),
                decreases names.len() - i,
            {
                proof {
                    assert(ns.skip(i as int).drop_first() =~= ns.skip(i + 1));
                    assert(ns.skip(i as int)[0] == ns[i as int]);
                    assert(ns[i as int] == names@[i as int]@);
                }
                let ghost before = strings_view(out@);
                let chars = crate::text::chars_of(names[i].as_str());
                let upper = chars.len() > 0 && 'A' <= chars[0] && chars[0] <= 'Z';
                if upper {
                    push_name(out, &names[i]);
                }
                i = i + 1;
            }
            proof {
                assert(ns.skip(i as int) =~= Seq::<Seq<char>>::empty());
                assert(strings_view(out@) + Seq::<Seq<char>>::empty() =~= strings_view(out@));
            }
        },
        Decl::Native { ty, .. } => collect_type(ty, out),
        Decl::Type { name, ty, .. } => {
            push_name(out, name);
            let ghost mid = strings_view(out@);
            collect_type(ty, out);
            assert(strings_view(out@) =~= strings_view(old(out)@) + (seq![name@] + type_names(*ty)));
        },
        Decl::Let { annotation, expr, .. } => {
            match annotation {
                Some(t) => collect_type(t, out),
                None => {
                    assert(strings_view(out@) + Seq::<Seq<char>>::empty() =~= strings_view(out@));
                },
            }
            let ghost mid = strings_view(out@);
            collect_expr(expr, out);
            assert(strings_view(out@) =~= strings_view(old(out)@) + (annotation_names(*annotation) + expr_names(*expr)));
        },
    }
}

#[verifier::loop_isolation(false)]
fn collect_type(t: &Type, out: &mut Vec<String>)
    ensures
        strings_view(final(out)@) == strings_view(old(out)@) + type_names(*t),
    decreases t,
{
    match t {
        Type::Spanned(inner, _) => collect_type(inner, out),
        Type::Option(inner) => collect_type(inner, out),
        Type::List(inner) => collect_type(inner, out),
        Type::Record(fields) => {
            let ghost fs = fields@;
            proof {
                assert(fs.skip(0) =~= fs);
            }
            let ghost start = strings_view(out@);
            let mut i: usize = 0;
            while i < fields.len()
                invariant
                    i <= fields@.len(),
                    fs == fields@,
                    strings_view(out@) + field_type_names(fs.skip(i as int)) == start + field_type_names(fs),
                decreases fields.len() - i,
            {
                proof {
                    assert(decreases_to!(fields => fields@[i as int]));
                    assert(fs.skip(i as int).drop_first() =~= fs.skip(i + 1));
                    assert(fs.skip(i as int)[0] == fs[i as int]);
                }
                let ghost before = strings_view(out@);
                collect_type(&fields[i].1, out);
                proof {
                    assert(strings_view(out@) + field_type_names(fs.skip(i + 1)) =~= before + field_type_names(fs.skip(i as int)));
                }
                i = i + 1;
            }
            proof {
                assert(fs.skip(i as int) =~= Seq::<(String, Type)>::empty());
                assert(strings_view(out@) + Seq::<Seq<char>>::empty() =~= strings_view(out@));
            }
        },
        Type::Refinement { base, pred, .. } => {
            collect_type(base, out);
            collect_expr(pred, out);
            assert(strings_view(out@) =~= strings_view(old(out)@) + (type_names(**base) + expr_names(**pred)));
        },
        Type::Function(a, b) => {
            collect_type(a, out);
            collect_type(b, out);
            assert(strings_view(out@) =~= strings_view(old(out)@) + (type_names(**a) + type_names(**b)));
        },
        Type::Alias(name) => push_name(out, name),
        _ => {
            assert(strings_view(out@) + Seq::<Seq<char>>::empty() =~= strings_view(out@));
        },
    }
}

#[verifier::loop_isolation(false)]
fn collect_expr(e: &Expr, out: &mut Vec<String>)
    ensures
        strings_view(final(out)@) == strings_view(old(out)@) + expr_names(*e),
    decreases e,
{
    match e {
        Expr::Spanned(inner, _) => collect_expr(inner, out),
        Expr::Interp(parts) => {
            let ghost ps = parts@;
            proof {
                assert(ps.skip(0) =~= ps);
            }
            let ghost start = strings_view(out@);
            let mut i: usize = 0;
            while i < parts.len()
                invariant
                    i <= parts@.len(),
                    ps == parts@,
                    strings_view(out@) + part_names(ps.skip(i as int)) == start + part_names(ps),
                decreases parts.len() - i,
            {
                proof {
                    assert(decreases_to!(parts => parts@[i as int]));
                    assert(ps.skip(i as int).drop_first() =~= ps.skip(i + 1));
                    assert(ps.skip(i as int)[0] == ps[i as int]);
                }
                let ghost before = strings_view(out@);
                match &parts[i] {
                    StrPart::Expr(x) => {
                        collect_expr(x, out);
                    },
                    StrPart::Text(_) => {},
                }
                proof {
                    assert(strings_view(out@) + part_names(ps.skip(i + 1)) =~= before + part_names(ps.skip(i as int)));
                }
                i = i + 1;
            }
            proof {
                assert(ps.skip(i as int) =~= Seq::<StrPart>::empty());
                assert(strings_view(out@) + Seq::<Seq<char>>::empty() =~= strings_view(out@));
            }
        },
        Expr::OptSome(x) => collect_expr(x, out),
        Expr::Field(x, _) => collect_expr(x, out),
        Expr::Dot(x, _) => collect_expr(x, out),
        Expr::Unary(_, x) => collect_expr(x, out),
        Expr::List(items) => {
            let ghost xs = items@;
            proof {
                assert(xs.skip(0) =~= xs);
            }
            let ghost start = strings_view(out@);
            let mut i: usize = 0;
            while i < items.len()
                invariant
                    i <= items@.len(),
                    xs == items@,
                    strings_view(out@) + list_names(xs.skip(i as int)) == start + list_names(xs),
                decreases items.len() - i,
            {
                proof {
                    assert(decreases_to!(items => items@[i as int]));
                    assert(xs.skip(i as int).drop_first() =~= xs.skip(i + 1));
                    assert(xs.skip(i as int)[0] == xs[i as int]);
                }
                let ghost before = strings_view(out@);
                collect_expr(&items[i], out);
                proof {
                    assert(strings_view(out@) + list_names(xs.skip(i + 1)) =~= before + list_names(xs.skip(i as int)));
                }
                i = i + 1;
            }
            proof {
                assert(xs.skip(i as int) =~= Seq::<Expr>::empty());
                assert(strings_view(out@) + Seq::<Seq<char>>::empty() =~= strings_view(out@));
            }
        },
        Expr::Record(fields) => {
            let ghost fs = fields@;
            proof {
                assert(fs.skip(0) =~= fs);
            }
            let ghost start = strings_view(out@);
            let mut i: usize = 0;
            while i < fields.len()
                invariant
                    i <= fields@.len(),
                    fs == fields@,
                    strings_view(out@) + field_expr_names(fs.skip(i as int)) == start + field_expr_names(fs),
                decreases fields.len() - i,
            {
                proof {
                    assert(decreases_to!(fields => fields@[i as int]));
                    assert(fs.skip(i as int).drop_first() =~= fs.skip(i + 1));
                    assert(fs.skip(i as int)[0] == fs[i as int]);
                }
                let ghost before = strings_view(out@);
                collect_expr(&fields[i].1, out);
                proof {
                    assert(strings_view(out@) + field_expr_names(fs.skip(i + 1)) =~= before + field_expr_names(fs.skip(i as int)));
                }
                i = i + 1;
            }
            proof {
                assert(fs.skip(i as int) =~= Seq::<(String, Expr)>::empty());
                assert(strings_view(out@) + Seq::<Seq<char>>::empty() =~= strings_view(out@));
            }
        },
        Expr::If(c, t, f) => {
            collect_expr(c, out);
            collect_expr(t, out);
            collect_expr(f, out);
            assert(strings_view(out@) =~= strings_view(old(out)@) + (expr_names(**c) + expr_names(**t) + expr_names(**f)));
        },
        Expr::Let(_, annotation, value, body) => {
            match annotation {
                Some(ty) => collect_type(ty, out),
                None => {},
            }
            collect_expr(value, out);
            collect_expr(body, out);
            proof {
                match annotation {
                    Some(ty) => {
                        assert(strings_view(out@) =~= strings_view(old(out)@) + (type_names(*ty) + expr_names(**value) + expr_names(**body)));
                    },
                    None => {
                        assert(strings_view(out@) =~= strings_view(old(out)@) + (expr_names(**value) + expr_names(**body)));
                    },
                }
            }
        },
        Expr::Lambda(_, ty, body) => {
            collect_type(ty, out);
            collect_expr(body, out);
            assert(strings_view(out@) =~= strings_view(old(out)@) + (type_names(*ty) + expr_names(**body)));
        },
        Expr::Apply(f, a) => {
            collect_expr(f, out);
            collect_expr(a, out);
            assert(strings_view(out@) =~= strings_view(old(out)@) + (expr_names(**f) + expr_names(**a)));
        },
        Expr::Binary(_, a, b) => {
            collect_expr(a, out);
            collect_expr(b, out);
            assert(strings_view(out@) =~= strings_view(old(out)@) + (expr_names(**a) + expr_names(**b)));
        },
        Expr::Ascribe(x, ty) => {
            collect_expr(x, out);
            collect_type(ty, out);
            assert(strings_view(out@) =~= strings_view(old(out)@) + (expr_names(**x) + type_names(*ty)));
        },
        _ => {
            assert(strings_view(out@) + Seq::<Seq<char>>::empty() =~= strings_view(out@));
        },
    }
}

} // verus!
