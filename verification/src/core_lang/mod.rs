//! The core language: the small typed calculus that surface syntax lowers into.

pub mod ast;
pub mod types;

pub use ast::{
    CoreDecl, CoreExpr, CoreImport, CoreModule, CoreType, ElaboratedDecl, ElaboratedExpr,
    ElaboratedModule, GlobalRef, LocalRef, SpecExpr, SpecType, TypeAliasRef, TypedCoreExpr,
};
pub use types::{
    CoreTypeContext, CoreTypeEnv, CoreTypeEquivalence, CoreTypeValidator, EmptyCoreTypeContext,
};
