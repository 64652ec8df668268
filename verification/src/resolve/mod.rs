//! Modules: binding imports, evaluating declarations in order, and loading
//! each imported file once.

pub mod modules;
