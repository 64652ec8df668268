//! Type checking: elaboration of core expressions against expected types,
//! type synthesis, and elaboration of whole modules.

pub mod elaborate;
pub mod scope;
pub mod synth;
pub mod module;
pub mod unify;
pub mod bidir;
pub mod wf;

pub use elaborate::{CoreElaborator, CoreExprTyper, is_option_type};
pub use scope::{CoreValueTypeContext, ValueTypeScope};
