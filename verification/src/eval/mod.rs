//! Evaluation of elaborated core expressions and the native functions the
//! language provides.

use vstd::prelude::*;

use crate::compiler::output::OutputValidator;
use crate::emit::reconf::{reconf_spec, ReconfEmitter};
use crate::error::{ErrorCode, Result};
use crate::eval::value::{lookup_name, Value};
use crate::resolve::modules::{contains_function_spec, Module};

pub mod builtins;
pub mod value;
pub mod interp;

verus! {

/// The ReConf text of a value; a value holding a function has none.
pub fn emit(value: &Value) -> (r: Result<String>)
    ensures
        match r {
            Ok(s) => !contains_function_spec(value@) && s@ == reconf_spec(value@),
            Err(e) => contains_function_spec(value@) && e.code_spec() == ErrorCode::OutputFunction,
        },
{
    let data = OutputValidator::new().validate(value)?;
    Ok(ReconfEmitter::new().emit(&data))
}

/// The output of an evaluated module in the ReConf format.
pub fn run(module: &Module) -> (r: Result<String>)
    ensures
        match r {
            Ok(s) => (lookup_name(module.values_model(), "$output"@) matches Some(v) && !contains_function_spec(v)
                && s@ == reconf_spec(v)),
            Err(e) => match lookup_name(module.values_model(), "$output"@) {
                Some(v) => contains_function_spec(v) && e.code_spec() == ErrorCode::OutputFunction,
                None => e.code_spec() == ErrorCode::Reconf,
            },
        },
{
    let output = module.output()?;
    emit(output)
}

} // verus!
