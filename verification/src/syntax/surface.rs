//! The surface syntax tree: what the parser produces and lowering consumes.

use vstd::prelude::*;

use crate::error::ByteRange;

verus! {

/// Types as written.
#[derive(Debug, PartialEq)]
pub enum Type {
    Spanned(Box<Type>, ByteRange),
    Int,
    Float,
    Bool,
    String,
    Option(Box<Type>),
    List(Box<Type>),
    Record(Vec<(String, Type)>),
    LiteralUnion(Vec<String>),
    Refinement { binder: String, base: Box<Type>, pred: Box<Expr> },
    Function(Box<Type>, Box<Type>),
    Alias(String),
}

/// A piece of an interpolated string.
#[derive(Debug, PartialEq)]
pub enum StrPart {
    Text(String),
    Expr(Expr),
}

/// Expressions as written. A float literal is kept as its source text.
#[derive(Debug, PartialEq)]
pub enum Expr {
    Spanned(Box<Expr>, ByteRange),
    Int(i64),
    Float(String),
    Bool(bool),
    String(String),
    Interp(Vec<StrPart>),
    OptNone,
    OptSome(Box<Expr>),
    Var(String),
    List(Vec<Expr>),
    Record(Vec<(String, Expr)>),
    Field(Box<Expr>, String),
    Dot(Box<Expr>, String),
    If(Box<Expr>, Box<Expr>, Box<Expr>),
    Let(String, Option<Type>, Box<Expr>, Box<Expr>),
    Lambda(String, Type, Box<Expr>),
    Apply(Box<Expr>, Box<Expr>),
    Ascribe(Box<Expr>, Type),
    Unary(String, Box<Expr>),
    Binary(String, Box<Expr>, Box<Expr>),
}

/// Top-level declarations.
#[derive(Debug, PartialEq)]
pub enum Decl {
    Import { path: String, names: Vec<String> },
    Native { export: bool, name: String, ty: Type },
    Type { export: bool, name: String, ty: Type },
    Let { export: bool, name: String, annotation: Option<Type>, expr: Expr },
}

/// A parsed file: its declarations and the optional output expression.
#[derive(Debug, PartialEq)]
pub struct FileAst {
    pub decls: Vec<Decl>,
    pub output: Option<Expr>,
}

} // verus!
