//! Syntax trees of the core language and their mathematical models.

use vstd::prelude::*;

use crate::error::ByteRange;
use crate::fields::FieldMap;

verus! {

broadcast use vstd::std_specs::vec::group_vec_axioms;

/// Identifies a type alias independently of its name.
#[derive(Debug, Clone, Copy, PartialEq, Eq, PartialOrd, Ord, Hash, Structural)]
pub struct TypeAliasRef(pub usize);

/// Identifies a top-level value binding.
#[derive(Debug, Clone, Copy, PartialEq, Eq, PartialOrd, Ord, Hash, Structural)]
pub struct GlobalRef(pub usize);

/// A local binding, counted outward from the innermost binder.
#[derive(Debug, Clone, Copy, PartialEq, Eq, PartialOrd, Ord, Hash, Structural)]
pub struct LocalRef(pub usize);

impl TypeAliasRef {
    pub fn new(id: usize) -> (r: TypeAliasRef)
        ensures
            r.0 == id,
    {
        TypeAliasRef(id)
    }

    pub fn id(self) -> (id: usize)
        ensures
            id == self.0,
    {
        self.0
    }
}

impl GlobalRef {
    pub fn new(id: usize) -> (r: GlobalRef)
        ensures
            r.0 == id,
    {
        GlobalRef(id)
    }

    pub fn id(self) -> (id: usize)
        ensures
            id == self.0,
    {
        self.0
    }
}

impl LocalRef {
    pub fn new(index: usize) -> (r: LocalRef)
        ensures
            r.0 == index,
    {
        LocalRef(index)
    }

    pub fn index(self) -> (index: usize)
        ensures
            index == self.0,
    {
        self.0
    }
}

/// Types of the core language.
#[derive(Debug, PartialEq)]
pub enum CoreType {
    Spanned(Box<CoreType>, ByteRange),
    Int,
    Float,
    Bool,
    String,
    Option(Box<CoreType>),
    List(Box<CoreType>),
    Record(FieldMap<CoreType>),
    LiteralUnion(Vec<String>),
    Refinement { binder: String, base: Box<CoreType>, pred: Box<CoreExpr> },
    Function(Box<CoreType>, Box<CoreType>),
    Alias(String),
    ResolvedAlias(TypeAliasRef),
}

/// Expressions of the core language. A float literal is kept as its source text.
#[derive(Debug, PartialEq)]
pub enum CoreExpr {
    Spanned(Box<CoreExpr>, ByteRange),
    Int(i64),
    Float(String),
    Bool(bool),
    String(String),
    OptNone,
    OptSome(Box<CoreExpr>),
    Var(String),
    Global(GlobalRef),
    Local(LocalRef),
    List(Vec<CoreExpr>),
    Record(FieldMap<CoreExpr>),
    Field(Box<CoreExpr>, String),
    If(Box<CoreExpr>, Box<CoreExpr>, Box<CoreExpr>),
    Let(String, Option<CoreType>, Box<CoreExpr>, Box<CoreExpr>),
    Lambda(String, CoreType, Box<CoreExpr>),
    Apply(Box<CoreExpr>, Box<CoreExpr>),
    Ascribe(Box<CoreExpr>, CoreType),
    Unary(String, Box<CoreExpr>),
    Binary(String, Box<CoreExpr>, Box<CoreExpr>),
}

/// The mathematical model of a `CoreType`.
pub enum SpecType {
    Spanned(Box<SpecType>, ByteRange),
    Int,
    Float,
    Bool,
    Str,
    Option(Box<SpecType>),
    List(Box<SpecType>),
    Record(Seq<(Seq<char>, SpecType)>),
    LiteralUnion(Seq<Seq<char>>),
    Refinement { binder: Seq<char>, base: Box<SpecType>, pred: Box<SpecExpr> },
    Function(Box<SpecType>, Box<SpecType>),
    Alias(Seq<char>),
    ResolvedAlias(TypeAliasRef),
}

/// The mathematical model of a `CoreExpr`.
pub enum SpecExpr {
    Spanned(Box<SpecExpr>, ByteRange),
    Int(i64),
    Float(Seq<char>),
    Bool(bool),
    Str(Seq<char>),
    OptNone,
    OptSome(Box<SpecExpr>),
    Var(Seq<char>),
    Global(GlobalRef),
    Local(LocalRef),
    List(Seq<SpecExpr>),
    Record(Seq<(Seq<char>, SpecExpr)>),
    Field(Box<SpecExpr>, Seq<char>),
    If(Box<SpecExpr>, Box<SpecExpr>, Box<SpecExpr>),
    Let(Seq<char>, Option<SpecType>, Box<SpecExpr>, Box<SpecExpr>),
    Lambda(Seq<char>, SpecType, Box<SpecExpr>),
    Apply(Box<SpecExpr>, Box<SpecExpr>),
    Ascribe(Box<SpecExpr>, SpecType),
    Unary(Seq<char>, Box<SpecExpr>),
    Binary(Seq<char>, Box<SpecExpr>, Box<SpecExpr>),
}

/// The characters of each string.
pub open spec fn strings_view(s: Seq<String>) -> Seq<Seq<char>> {
    s.map_values(|x: String| x@)
}

pub open spec fn type_view(t: CoreType) -> SpecType
    decreases t,
{
    match t {
        CoreType::Spanned(inner, span) => SpecType::Spanned(Box::new(type_view(*inner)), span),
        CoreType::Int => SpecType::Int,
        CoreType::Float => SpecType::Float,
        CoreType::Bool => SpecType::Bool,
        CoreType::String => SpecType::Str,
        CoreType::Option(inner) => SpecType::Option(Box::new(type_view(*inner))),
        CoreType::List(inner) => SpecType::List(Box::new(type_view(*inner))),
        CoreType::Record(fields) => SpecType::Record(type_fields_view(fields.entries@)),
        CoreType::LiteralUnion(choices) => SpecType::LiteralUnion(strings_view(choices@)),
        CoreType::Refinement { binder, base, pred } => SpecType::Refinement {
            binder: binder@,
            base: Box::new(type_view(*base)),
            pred: Box::new(expr_view(*pred)),
        },
        CoreType::Function(input, output) => SpecType::Function(
            Box::new(type_view(*input)),
            Box::new(type_view(*output)),
        ),
        CoreType::Alias(name) => SpecType::Alias(name@),
        CoreType::ResolvedAlias(alias) => SpecType::ResolvedAlias(alias),
    }
}

pub open spec fn type_fields_view(s: Seq<(String, CoreType)>) -> Seq<(Seq<char>, SpecType)>
    decreases s,
{
    if s.len() == 0 {
        Seq::empty()
    } else {
        type_fields_view(s.drop_last()).push((s.last().0@, type_view(s.last().1)))
    }
}

pub open spec fn expr_view(e: CoreExpr) -> SpecExpr
    decreases e,
{
    match e {
        CoreExpr::Spanned(inner, span) => SpecExpr::Spanned(Box::new(expr_view(*inner)), span),
        CoreExpr::Int(v) => SpecExpr::Int(v),
        CoreExpr::Float(text) => SpecExpr::Float(text@),
        CoreExpr::Bool(b) => SpecExpr::Bool(b),
        CoreExpr::String(s) => SpecExpr::Str(s@),
        CoreExpr::OptNone => SpecExpr::OptNone,
        CoreExpr::OptSome(inner) => SpecExpr::OptSome(Box::new(expr_view(*inner))),
        CoreExpr::Var(name) => SpecExpr::Var(name@),
        CoreExpr::Global(g) => SpecExpr::Global(g),
        CoreExpr::Local(l) => SpecExpr::Local(l),
        CoreExpr::List(items) => SpecExpr::List(expr_list_view(items@)),
        CoreExpr::Record(fields) => SpecExpr::Record(expr_fields_view(fields.entries@)),
        CoreExpr::Field(inner, name) => SpecExpr::Field(Box::new(expr_view(*inner)), name@),
        CoreExpr::If(c, t, f) => SpecExpr::If(
            Box::new(expr_view(*c)),
            Box::new(expr_view(*t)),
            Box::new(expr_view(*f)),
        ),
        CoreExpr::Let(name, ann, value, body) => SpecExpr::Let(
            name@,
            match ann {
                Some(ty) => Some(type_view(ty)),
                None => None,
            },
            Box::new(expr_view(*value)),
            Box::new(expr_view(*body)),
        ),
        CoreExpr::Lambda(param, ty, body) => SpecExpr::Lambda(
            param@,
            type_view(ty),
            Box::new(expr_view(*body)),
        ),
        CoreExpr::Apply(f, a) => SpecExpr::Apply(Box::new(expr_view(*f)), Box::new(expr_view(*a))),
        CoreExpr::Ascribe(inner, ty) => SpecExpr::Ascribe(Box::new(expr_view(*inner)), type_view(ty)),
        CoreExpr::Unary(op, inner) => SpecExpr::Unary(op@, Box::new(expr_view(*inner))),
        CoreExpr::Binary(op, l, r) => SpecExpr::Binary(
            op@,
            Box::new(expr_view(*l)),
            Box::new(expr_view(*r)),
        ),
    }
}

pub open spec fn expr_list_view(s: Seq<CoreExpr>) -> Seq<SpecExpr>
    decreases s,
{
    if s.len() == 0 {
        Seq::empty()
    } else {
        expr_list_view(s.drop_last()).push(expr_view(s.last()))
    }
}

pub open spec fn expr_fields_view(s: Seq<(String, CoreExpr)>) -> Seq<(Seq<char>, SpecExpr)>
    decreases s,
{
    if s.len() == 0 {
        Seq::empty()
    } else {
        expr_fields_view(s.drop_last()).push((s.last().0@, expr_view(s.last().1)))
    }
}

impl View for CoreType {
    type V = SpecType;

    open spec fn view(&self) -> SpecType {
        type_view(*self)
    }
}

impl View for CoreExpr {
    type V = SpecExpr;

    open spec fn view(&self) -> SpecExpr {
        expr_view(*self)
    }
}

/// Element-wise facts about the field view.
pub proof fn lemma_type_fields_view(s: Seq<(String, CoreType)>)
    ensures
        type_fields_view(s).len() == s.len(),
        forall|i: int|
            0 <= i < s.len() ==> #[trigger] type_fields_view(s)[i] == (s[i].0@, type_view(s[i].1)),
    decreases s.len(),
{
    if s.len() > 0 {
        lemma_type_fields_view(s.drop_last());
    }
}


/// The field view commutes with replacing an entry.
pub proof fn lemma_type_fields_view_update(s: Seq<(String, CoreType)>, i: int, e: (String, CoreType))
    requires
        0 <= i < s.len(),
    ensures
        type_fields_view(s.update(i, e)) == type_fields_view(s).update(i, (e.0@, type_view(e.1))),
{
    lemma_type_fields_view(s);
    lemma_type_fields_view(s.update(i, e));
    assert(type_fields_view(s.update(i, e)) =~= type_fields_view(s).update(i, (e.0@, type_view(e.1))));
}

/// The field view commutes with inserting an entry.
pub proof fn lemma_type_fields_view_insert(s: Seq<(String, CoreType)>, p: int, e: (String, CoreType))
    requires
        0 <= p <= s.len(),
    ensures
        type_fields_view(s.insert(p, e)) == type_fields_view(s).insert(p, (e.0@, type_view(e.1))),
{
    lemma_type_fields_view(s);
    lemma_type_fields_view(s.insert(p, e));
    assert(type_fields_view(s.insert(p, e)) =~= type_fields_view(s).insert(p, (e.0@, type_view(e.1))));
}


/// The field view is the model of the entries under `type_view`.
pub proof fn lemma_type_fields_view_model(s: Seq<(String, CoreType)>)
    ensures
        type_fields_view(s) == crate::fields::model(s, |t: CoreType| type_view(t)),
{
    lemma_type_fields_view(s);
    assert(type_fields_view(s) =~= crate::fields::model(s, |t: CoreType| type_view(t)));
}

/// Element-wise facts about the expression field view.
pub proof fn lemma_expr_fields_view(s: Seq<(String, CoreExpr)>)
    ensures
        expr_fields_view(s).len() == s.len(),
        forall|i: int|
            0 <= i < s.len() ==> #[trigger] expr_fields_view(s)[i] == (s[i].0@, expr_view(s[i].1)),
    decreases s.len(),
{
    if s.len() > 0 {
        lemma_expr_fields_view(s.drop_last());
    }
}

/// Element-wise facts about the list view.
pub proof fn lemma_expr_list_view(s: Seq<CoreExpr>)
    ensures
        expr_list_view(s).len() == s.len(),
        forall|i: int| 0 <= i < s.len() ==> #[trigger] expr_list_view(s)[i] == expr_view(s[i]),
    decreases s.len(),
{
    if s.len() > 0 {
        lemma_expr_list_view(s.drop_last());
    }
}

/// Two field sequences with equal element views have equal views.
pub proof fn lemma_type_fields_view_ext(a: Seq<(String, CoreType)>, b: Seq<(String, CoreType)>)
    requires
        a.len() == b.len(),
        forall|i: int| 0 <= i < a.len() ==> a[i].0@ == b[i].0@ && type_view(a[i].1) == type_view(b[i].1),
    ensures
        type_fields_view(a) == type_fields_view(b),
{
    lemma_type_fields_view(a);
    lemma_type_fields_view(b);
    assert(type_fields_view(a) =~= type_fields_view(b));
}

pub proof fn lemma_expr_fields_view_ext(a: Seq<(String, CoreExpr)>, b: Seq<(String, CoreExpr)>)
    requires
        a.len() == b.len(),
        forall|i: int| 0 <= i < a.len() ==> a[i].0@ == b[i].0@ && expr_view(a[i].1) == expr_view(b[i].1),
    ensures
        expr_fields_view(a) == expr_fields_view(b),
{
    lemma_expr_fields_view(a);
    lemma_expr_fields_view(b);
    assert(expr_fields_view(a) =~= expr_fields_view(b));
}

pub proof fn lemma_expr_list_view_ext(a: Seq<CoreExpr>, b: Seq<CoreExpr>)
    requires
        a.len() == b.len(),
        forall|i: int| 0 <= i < a.len() ==> expr_view(a[i]) == expr_view(b[i]),
    ensures
        expr_list_view(a) == expr_list_view(b),
{
    lemma_expr_list_view(a);
    lemma_expr_list_view(b);
    assert(expr_list_view(a) =~= expr_list_view(b));
}

/// A copy of a list of strings.
pub fn clone_strings(s: &Vec<String>) -> (r: Vec<String>)
    ensures
        strings_view(r@) == strings_view(s@),
{
    let mut out: Vec<String> = Vec::new();
    let mut i: usize = 0;
    while i < s.len()
        invariant
            i <= s@.len(),
            out@.len() == i,
            forall|j: int| 0 <= j < i ==> (#[trigger] out@[j])@ == s@[j]@,
        decreases s.len() - i,
    {
        out.push(s[i].clone());
        i = i + 1;
    }
    assert(strings_view(out@) =~= strings_view(s@));
    out
}

impl CoreType {
    /// A deep copy.
    #[verifier::loop_isolation(false)]
    pub fn duplicate(&self) -> (r: CoreType)
        ensures
            r@ == self@,
        decreases self,
    {
        match self {
            CoreType::Spanned(inner, span) => CoreType::Spanned(Box::new(inner.duplicate()), *span),
            CoreType::Int => CoreType::Int,
            CoreType::Float => CoreType::Float,
            CoreType::Bool => CoreType::Bool,
            CoreType::String => CoreType::String,
            CoreType::Option(inner) => CoreType::Option(Box::new(inner.duplicate())),
            CoreType::List(inner) => CoreType::List(Box::new(inner.duplicate())),
            CoreType::Record(fields) => {
                let mut out: Vec<(String, CoreType)> = Vec::new();
                let mut i: usize = 0;
                while i < fields.entries.len()
                    invariant
                        i <= fields.entries@.len(),
                        out@.len() == i,
                        forall|j: int|
                            0 <= j < i ==> (#[trigger] out@[j]).0@ == fields.entries@[j].0@
                                && type_view(out@[j].1) == type_view(fields.entries@[j].1),
                    decreases fields.entries.len() - i,
                {
                    proof {
                        assert(decreases_to!(fields.entries => fields.entries@[i as int]));
                    }
                    let ty = fields.entries[i].1.duplicate();
                    out.push((fields.entries[i].0.clone(), ty));
                    i = i + 1;
                }
                proof {
                    lemma_type_fields_view_ext(out@, fields.entries@);
                }
                CoreType::Record(FieldMap { entries: out })
            },
            CoreType::LiteralUnion(choices) => CoreType::LiteralUnion(clone_strings(choices)),
            CoreType::Refinement { binder, base, pred } => CoreType::Refinement {
                binder: binder.clone(),
                base: Box::new(base.duplicate()),
                pred: Box::new(pred.duplicate()),
            },
            CoreType::Function(input, output) => CoreType::Function(
                Box::new(input.duplicate()),
                Box::new(output.duplicate()),
            ),
            CoreType::Alias(name) => CoreType::Alias(name.clone()),
            CoreType::ResolvedAlias(alias) => CoreType::ResolvedAlias(*alias),
        }
    }

    /// The type under any span annotations.
    pub fn as_unspanned(&self) -> (r: &CoreType)
        ensures
            r@ == unspanned_type(self@),
        decreases self,
    {
        match self {
            CoreType::Spanned(inner, _) => inner.as_unspanned(),
            _ => self,
        }
    }
}

/// A type model with its span annotations peeled off.
pub open spec fn unspanned_type(t: SpecType) -> SpecType
    decreases t,
{
    match t {
        SpecType::Spanned(inner, _) => unspanned_type(*inner),
        _ => t,
    }
}

/// An expression model with its span annotations peeled off.
pub open spec fn unspanned_expr(e: SpecExpr) -> SpecExpr
    decreases e,
{
    match e {
        SpecExpr::Spanned(inner, _) => unspanned_expr(*inner),
        _ => e,
    }
}

/// The outermost span of an expression.
pub open spec fn origin_span_spec(e: SpecExpr) -> Option<ByteRange> {
    match e {
        SpecExpr::Spanned(_, span) => Some(span),
        _ => None,
    }
}

impl CoreExpr {
    /// A deep copy.
    #[verifier::loop_isolation(false)]
    pub fn duplicate(&self) -> (r: CoreExpr)
        ensures
            r@ == self@,
        decreases self,
    {
        match self {
            CoreExpr::Spanned(inner, span) => CoreExpr::Spanned(Box::new(inner.duplicate()), *span),
            CoreExpr::Int(v) => CoreExpr::Int(*v),
            CoreExpr::Float(text) => CoreExpr::Float(text.clone()),
            CoreExpr::Bool(b) => CoreExpr::Bool(*b),
            CoreExpr::String(s) => CoreExpr::String(s.clone()),
            CoreExpr::OptNone => CoreExpr::OptNone,
            CoreExpr::OptSome(inner) => CoreExpr::OptSome(Box::new(inner.duplicate())),
            CoreExpr::Var(name) => CoreExpr::Var(name.clone()),
            CoreExpr::Global(g) => CoreExpr::Global(*g),
            CoreExpr::Local(l) => CoreExpr::Local(*l),
            CoreExpr::List(items) => {
                let mut out: Vec<CoreExpr> = Vec::new();
                let mut i: usize = 0;
                while i < items.len()
                    invariant
                        i <= items@.len(),
                        out@.len() == i,
                        forall|j: int| 0 <= j < i ==> expr_view(#[trigger] out@[j]) == expr_view(items@[j]),
                    decreases items.len() - i,
                {
                    proof {
                        assert(decreases_to!(*items => items@[i as int]));
                    }
                    out.push(items[i].duplicate());
                    i = i + 1;
                }
                proof {
                    lemma_expr_list_view_ext(out@, items@);
                }
                CoreExpr::List(out)
            },
            CoreExpr::Record(fields) => {
                let mut out: Vec<(String, CoreExpr)> = Vec::new();
                let mut i: usize = 0;
                while i < fields.entries.len()
                    invariant
                        i <= fields.entries@.len(),
                        out@.len() == i,
                        forall|j: int|
                            0 <= j < i ==> (#[trigger] out@[j]).0@ == fields.entries@[j].0@
                                && expr_view(out@[j].1) == expr_view(fields.entries@[j].1),
                    decreases fields.entries.len() - i,
                {
                    proof {
                        assert(decreases_to!(fields.entries => fields.entries@[i as int]));
                    }
                    let e = fields.entries[i].1.duplicate();
                    out.push((fields.entries[i].0.clone(), e));
                    i = i + 1;
                }
                proof {
                    lemma_expr_fields_view_ext(out@, fields.entries@);
                }
                CoreExpr::Record(FieldMap { entries: out })
            },
            CoreExpr::Field(inner, name) => CoreExpr::Field(Box::new(inner.duplicate()), name.clone()),
            CoreExpr::If(c, t, f) => CoreExpr::If(
                Box::new(c.duplicate()),
                Box::new(t.duplicate()),
                Box::new(f.duplicate()),
            ),
            CoreExpr::Let(name, ann, value, body) => {
                let ann2 = match ann {
                    Some(ty) => Some(ty.duplicate()),
                    None => None,
                };
                CoreExpr::Let(name.clone(), ann2, Box::new(value.duplicate()), Box::new(body.duplicate()))
            },
            CoreExpr::Lambda(param, ty, body) => CoreExpr::Lambda(
                param.clone(),
                ty.duplicate(),
                Box::new(body.duplicate()),
            ),
            CoreExpr::Apply(f, a) => CoreExpr::Apply(Box::new(f.duplicate()), Box::new(a.duplicate())),
            CoreExpr::Ascribe(inner, ty) => CoreExpr::Ascribe(Box::new(inner.duplicate()), ty.duplicate()),
            CoreExpr::Unary(op, inner) => CoreExpr::Unary(op.clone(), Box::new(inner.duplicate())),
            CoreExpr::Binary(op, l, r) => CoreExpr::Binary(
                op.clone(),
                Box::new(l.duplicate()),
                Box::new(r.duplicate()),
            ),
        }
    }

    /// The outermost span, when the expression carries one.
    pub fn origin_span(&self) -> (r: Option<ByteRange>)
        ensures
            r == origin_span_spec(self@),
    {
        match self {
            CoreExpr::Spanned(_, span) => Some(*span),
            _ => None,
        }
    }
}

/// An expression together with the type it was checked or synthesized at.
#[derive(Debug, PartialEq)]
pub struct TypedCoreExpr {
    pub expr: CoreExpr,
    pub ty: CoreType,
}

/// An import of names from another module.
#[derive(Debug, PartialEq)]
pub struct CoreImport {
    pub path: String,
    pub names: Vec<String>,
}

/// A top-level declaration of the core language.
#[derive(Debug, PartialEq)]
pub enum CoreDecl {
    Native { export: bool, name: String, ty: CoreType },
    Type { export: bool, name: String, ty: CoreType },
    Let { export: bool, name: String, annotation: Option<CoreType>, expr: CoreExpr },
}

/// A lowered module: imports, declarations and an optional output expression.
#[derive(Debug, PartialEq)]
pub struct CoreModule {
    pub imports: Vec<CoreImport>,
    pub decls: Vec<CoreDecl>,
    pub output: Option<CoreExpr>,
}

/// An expression after elaboration.
#[derive(Debug, PartialEq)]
pub enum ElaboratedExpr {
    Checked(TypedCoreExpr),
}

impl ElaboratedExpr {
    /// The type the expression was elaborated at.
    pub fn ty(&self) -> (t: Option<&CoreType>)
        ensures
            match self {
                ElaboratedExpr::Checked(typed) => t == Some(&typed.ty),
            },
    {
        match self {
            ElaboratedExpr::Checked(typed) => Some(&typed.ty),
        }
    }
}

/// A declaration after elaboration.
#[derive(Debug, PartialEq)]
pub enum ElaboratedDecl {
    Native { export: bool, name: String, binding: GlobalRef, ty: CoreType },
    Type { export: bool, name: String, alias: TypeAliasRef, ty: CoreType },
    Let { export: bool, name: String, binding: GlobalRef, expr: ElaboratedExpr },
}

/// A module after elaboration.
#[derive(Debug, PartialEq)]
pub struct ElaboratedModule {
    pub decls: Vec<ElaboratedDecl>,
    pub output: Option<ElaboratedExpr>,
}

} // verus!

verus! {

/// Whether two lists of strings hold the same strings.
pub fn strings_same(a: &Vec<String>, b: &Vec<String>) -> (r: bool)
    ensures
        r == (strings_view(a@) == strings_view(b@)),
{
    if a.len() != b.len() {
        assert(strings_view(a@).len() != strings_view(b@).len());
        return false;
    }
    let mut i: usize = 0;
    while i < a.len()
        invariant
            a@.len() == b@.len(),
            i <= a@.len(),
            forall|j: int| 0 <= j < i ==> a@[j]@ == b@[j]@,
        decreases a.len() - i,
    {
        if a[i] != b[i] {
            assert(strings_view(a@)[i as int] != strings_view(b@)[i as int]);
            return false;
        }
        i = i + 1;
    }
    assert(strings_view(a@) =~= strings_view(b@));
    true
}

impl CoreType {
    /// Structural equality, spans included.
    #[verifier::loop_isolation(false)]
    pub fn same(&self, other: &CoreType) -> (r: bool)
        ensures
            r == (self@ == other@),
        decreases self,
    {
        match (self, other) {
            (CoreType::Spanned(a, sa), CoreType::Spanned(b, sb)) => *sa == *sb && a.same(b),
            (CoreType::Int, CoreType::Int) => true,
            (CoreType::Float, CoreType::Float) => true,
            (CoreType::Bool, CoreType::Bool) => true,
            (CoreType::String, CoreType::String) => true,
            (CoreType::Option(a), CoreType::Option(b)) => a.same(b),
            (CoreType::List(a), CoreType::List(b)) => a.same(b),
            (CoreType::Record(a), CoreType::Record(b)) => {
                proof {
                    lemma_type_fields_view(a.entries@);
                    lemma_type_fields_view(b.entries@);
                }
                if a.entries.len() != b.entries.len() {
                    return false;
                }
                let mut i: usize = 0;
                while i < a.entries.len()
                    invariant
                        a.entries@.len() == b.entries@.len(),
                        i <= a.entries@.len(),
                        forall|j: int|
                            0 <= j < i ==> a.entries@[j].0@ == b.entries@[j].0@ && type_view(a.entries@[j].1)
                                == type_view(b.entries@[j].1),
                    decreases a.entries.len() - i,
                {
                    proof {
                        assert(decreases_to!(a.entries => a.entries@[i as int]));
                    }
                    if a.entries[i].0 != b.entries[i].0 || !a.entries[i].1.same(&b.entries[i].1) {
                        assert(type_fields_view(a.entries@)[i as int] != type_fields_view(b.entries@)[i as int]);
                        return false;
                    }
                    i = i + 1;
                }
                proof {
                    lemma_type_fields_view_ext(a.entries@, b.entries@);
                }
                true
            },
            (CoreType::LiteralUnion(a), CoreType::LiteralUnion(b)) => strings_same(a, b),
            (
                CoreType::Refinement { binder: ba, base: a, pred: pa },
                CoreType::Refinement { binder: bb, base: b, pred: pb },
            ) => *ba == *bb && a.same(b) && pa.same(pb),
            (CoreType::Function(ai, ao), CoreType::Function(bi, bo)) => ai.same(bi) && ao.same(bo),
            (CoreType::Alias(a), CoreType::Alias(b)) => *a == *b,
            (CoreType::ResolvedAlias(a), CoreType::ResolvedAlias(b)) => *a == *b,
            _ => false,
        }
    }
}

impl CoreExpr {
    /// Structural equality, spans included.
    #[verifier::loop_isolation(false)]
    pub fn same(&self, other: &CoreExpr) -> (r: bool)
        ensures
            r == (self@ == other@),
        decreases self,
    {
        match (self, other) {
            (CoreExpr::Spanned(a, sa), CoreExpr::Spanned(b, sb)) => *sa == *sb && a.same(b),
            (CoreExpr::Int(a), CoreExpr::Int(b)) => *a == *b,
            (CoreExpr::Float(a), CoreExpr::Float(b)) => *a == *b,
            (CoreExpr::Bool(a), CoreExpr::Bool(b)) => *a == *b,
            (CoreExpr::String(a), CoreExpr::String(b)) => *a == *b,
            (CoreExpr::OptNone, CoreExpr::OptNone) => true,
            (CoreExpr::OptSome(a), CoreExpr::OptSome(b)) => a.same(b),
            (CoreExpr::Var(a), CoreExpr::Var(b)) => *a == *b,
            (CoreExpr::Global(a), CoreExpr::Global(b)) => *a == *b,
            (CoreExpr::Local(a), CoreExpr::Local(b)) => *a == *b,
            (CoreExpr::List(a), CoreExpr::List(b)) => {
                proof {
                    lemma_expr_list_view(a@);
                    lemma_expr_list_view(b@);
                }
                if a.len() != b.len() {
                    return false;
                }
                let mut i: usize = 0;
                while i < a.len()
                    invariant
                        a@.len() == b@.len(),
                        i <= a@.len(),
                        forall|j: int| 0 <= j < i ==> expr_view(a@[j]) == expr_view(b@[j]),
                    decreases a.len() - i,
                {
                    proof {
                        assert(decreases_to!(*a => a@[i as int]));
                    }
                    if !a[i].same(&b[i]) {
                        assert(expr_list_view(a@)[i as int] != expr_list_view(b@)[i as int]);
                        return false;
                    }
                    i = i + 1;
                }
                proof {
                    lemma_expr_list_view_ext(a@, b@);
                }
                true
            },
            (CoreExpr::Record(a), CoreExpr::Record(b)) => {
                proof {
                    lemma_expr_fields_view(a.entries@);
                    lemma_expr_fields_view(b.entries@);
                }
                if a.entries.len() != b.entries.len() {
                    return false;
                }
                let mut i: usize = 0;
                while i < a.entries.len()
                    invariant
                        a.entries@.len() == b.entries@.len(),
                        i <= a.entries@.len(),
                        forall|j: int|
                            0 <= j < i ==> a.entries@[j].0@ == b.entries@[j].0@ && expr_view(a.entries@[j].1)
                                == expr_view(b.entries@[j].1),
                    decreases a.entries.len() - i,
                {
                    proof {
                        assert(decreases_to!(a.entries => a.entries@[i as int]));
                    }
                    if a.entries[i].0 != b.entries[i].0 || !a.entries[i].1.same(&b.entries[i].1) {
                        assert(expr_fields_view(a.entries@)[i as int] != expr_fields_view(b.entries@)[i as int]);
                        return false;
                    }
                    i = i + 1;
                }
                proof {
                    lemma_expr_fields_view_ext(a.entries@, b.entries@);
                }
                true
            },
            (CoreExpr::Field(a, na), CoreExpr::Field(b, nb)) => *na == *nb && a.same(b),
            (CoreExpr::If(ac, at, af), CoreExpr::If(bc, bt, bf)) => ac.same(bc) && at.same(bt) && af.same(bf),
            (CoreExpr::Let(na, ta, va, ba), CoreExpr::Let(nb, tb, vb, bb)) => {
                let types_same = match (ta, tb) {
                    (Some(x), Some(y)) => x.same(y),
                    (None, None) => true,
                    _ => false,
                };
                *na == *nb && types_same && va.same(vb) && ba.same(bb)
            },
            (CoreExpr::Lambda(pa, ta, ba), CoreExpr::Lambda(pb, tb, bb)) => *pa == *pb && ta.same(tb) && ba.same(bb),
            (CoreExpr::Apply(fa, aa), CoreExpr::Apply(fb, ab)) => fa.same(fb) && aa.same(ab),
            (CoreExpr::Ascribe(a, ta), CoreExpr::Ascribe(b, tb)) => a.same(b) && ta.same(tb),
            (CoreExpr::Unary(oa, a), CoreExpr::Unary(ob, b)) => *oa == *ob && a.same(b),
            (CoreExpr::Binary(oa, la, ra), CoreExpr::Binary(ob, lb, rb)) => {
                *oa == *ob && la.same(lb) && ra.same(rb)
            },
            _ => false,
        }
    }
}

} // verus!
