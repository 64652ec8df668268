//! Refinement predicates: preparing a predicate so that its binder refers
//! to the value being checked.

pub mod validate;

pub use validate::{CheckedRefinementPredicate, CheckedRefinementPredicateBuilder, RefinementValidationOptions};
