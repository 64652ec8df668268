//! The prelude: the module every file is evaluated on top of. It binds and
//! exports each native function under its name.

use vstd::prelude::*;

use crate::eval::builtins::{native_arity, native_names, NativeRegistry};
use crate::eval::value::SpecValue;
use crate::resolve::modules::{Module, SpecExport};

verus! {

/// The native function `n` with no argument applied.
pub open spec fn native_value(n: Seq<char>) -> SpecValue {
    SpecValue::Native { name: n, args: Seq::empty() }
}

/// The values of the prelude: each native function, in registry order.
pub open spec fn prelude_values() -> Seq<(Seq<char>, SpecValue)> {
    native_names().map_values(|n: Seq<char>| (n, native_value(n)))
}

/// The exports of the prelude: each native function, in registry order.
pub open spec fn prelude_exports() -> Seq<(Seq<char>, SpecExport)> {
    native_names().map_values(|n: Seq<char>| (n, SpecExport::Value(native_value(n))))
}

/// A module is the prelude: the native functions bound and exported, and
/// no type alias.
pub open spec fn is_prelude(m: Module) -> bool {
    &&& m.values_model() == prelude_values()
    &&& m.exports_model() == prelude_exports()
    &&& forall|n: Seq<char>| m.type_env().named(n) is None
    &&& m.type_env().next_id() == 0
}

/// Builds the prelude module.
#[derive(Clone, Copy, Debug, Default)]
pub struct PreludeCompiler;

impl PreludeCompiler {
    pub fn new() -> (p: PreludeCompiler) {
        PreludeCompiler
    }

    /// The prelude module.
    pub fn compile_module(&self) -> (m: Module)
        ensures
            is_prelude(m),
    {
        let natives = NativeRegistry::all();
        let mut module = Module::new();
        let mut i: usize = 0;
        while i < natives.len()
            invariant
                i <= natives@.len(),
                natives@.len() == native_names().len(),
                forall|j: int| 0 <= j < natives@.len() ==> #[trigger] natives@[j].name_spec() == native_names()[j]
                    && native_arity(native_names()[j]) == Some(natives@[j].arity_spec()),
                module.values_model() == prelude_values().take(i as int),
                module.exports_model() == prelude_exports().take(i as int),
                forall|n: Seq<char>| module.type_env().named(n) is None,
                module.type_env().next_id() == 0,
            decreases natives.len() - i,
        {
            let name = natives[i].name();
            assert(native_arity(name@) is Some) by {
                assert(natives@[i as int].name_spec() == native_names()[i as int]);
            }
            module.bind_native(name);
            assert(module.values_model() =~= prelude_values().take(i + 1));
            assert(module.exports_model() =~= prelude_exports().take(i + 1));
            i = i + 1;
        }
        assert(module.values_model() =~= prelude_values());
        assert(module.exports_model() =~= prelude_exports());
        module
    }
}

} // verus!
