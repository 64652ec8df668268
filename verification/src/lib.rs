//! ReConf: a small configuration language with refinement types.

pub mod error;
pub mod text;

pub use error::{Error, Result};
pub mod fields;
pub mod core_lang;
pub mod typeck;
pub mod eval;
pub mod refine;
pub mod source;
pub mod syntax;
pub mod lower;
pub mod resolve;
pub mod emit;
pub mod compiler;
pub mod diagnostic;
pub mod repl;
pub mod cli;
pub mod laws;
pub mod type_laws;
pub mod elab_laws;
pub mod language_laws;
