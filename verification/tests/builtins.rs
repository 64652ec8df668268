use reconf::compiler::prelude::PreludeCompiler;
use reconf::eval::builtins::{NativeFunction, NativeRegistry};
use reconf::eval::value::Value;

#[test]
fn native_registry_is_single_source_for_known_native_metadata() {
    let show = NativeRegistry::get("show").unwrap();
    let map = NativeRegistry::get("map").unwrap();

    assert_eq!(show.name(), "show");
    assert_eq!(show.arity(), 1);
    assert_eq!(map.name(), "map");
    assert_eq!(map.arity(), 2);
    assert!(NativeRegistry::declared("filter"));
    assert!(NativeRegistry::get("missing").is_err());
}

#[test]
fn native_function_uses_registry_arity_and_implementation() {
    let partial = NativeFunction::new("contains")
        .apply(Value::Str("hello".to_string()))
        .unwrap();
    let Value::Native(partial) = partial else {
        panic!("expected partial native application");
    };

    let value = partial.apply(Value::Str("ell".to_string())).unwrap();

    assert!(matches!(value, Value::Bool(true)));
}

#[test]
fn prelude_compiler_builds_prelude_module() {
    let module = PreludeCompiler::new().compile_module();

    assert!(matches!(module.value("show"), Some(Value::Native(_))));
}

#[test]
fn prelude_binds_and_exports_every_registry_native() {
    let module = PreludeCompiler::new().compile_module();
    for spec in NativeRegistry::all() {
        assert!(matches!(module.value(spec.name()), Some(Value::Native(f)) if f.name == spec.name() && f.args.is_empty()));
        assert!(module.export(spec.name()).is_some());
    }
    assert!(module.value("missing").is_none());
}
