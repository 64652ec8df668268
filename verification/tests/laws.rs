use reconf::core_lang::ast::{CoreExpr, CoreType};
use reconf::core_lang::types::{CoreTypeEnv, CoreTypeEquivalence, CoreTypeValidator};
use reconf::error::ByteRange;
use reconf::eval::value::{Env, Value};
use reconf::fields::FieldMap;
use reconf::typeck::bidir::check_value_against;
use reconf::typeck::unify::expand_type;

fn port_env() -> CoreTypeEnv {
    let mut env = CoreTypeEnv::new();
    env.define("Port".to_string(), CoreType::Int);
    env.define("Server".to_string(), CoreType::Option(Box::new(CoreType::Alias("Port".to_string()))));
    env
}

#[test]
fn expansion_twice_is_expansion_once() {
    let env = port_env();
    let ty = CoreType::List(Box::new(CoreType::Alias("Server".to_string())));
    let once = expand_type(&ty, &env).unwrap();
    let twice = expand_type(&once, &env).unwrap();
    assert_eq!(once, twice);
    assert_eq!(once, CoreType::List(Box::new(CoreType::Option(Box::new(CoreType::Int)))));
}

#[test]
fn omitted_optional_field_is_none() {
    let env = port_env();
    let mut fields = FieldMap::new();
    fields.insert("port".to_string(), CoreType::Alias("Server".to_string()));
    fields.insert("name".to_string(), CoreType::String);
    let mut values = FieldMap::new();
    values.insert("name".to_string(), Value::Str("a".to_string()));
    let checked = check_value_against(Value::Record(values), &CoreType::Record(fields), &Env::new(), &env).unwrap();
    let Value::Record(out) = checked else { panic!("expected a record") };
    assert!(matches!(out.get("port"), Some(Value::OptNone)));
    assert!(matches!(out.get("name"), Some(Value::Str(s)) if s == "a"));
}

#[test]
fn checked_option_wraps_plain_values() {
    let env = port_env();
    let checked = check_value_against(Value::Int(7), &CoreType::Alias("Server".to_string()), &Env::new(), &env).unwrap();
    assert!(matches!(checked, Value::OptSome(inner) if matches!(*inner, Value::Int(7))));
}

#[test]
fn refinement_holds_of_checked_values() {
    let env = CoreTypeEnv::new();
    let pred = CoreExpr::Binary(
        ">".to_string(),
        Box::new(CoreExpr::Var("x".to_string())),
        Box::new(CoreExpr::Int(10)),
    );
    let ty = CoreType::Refinement { binder: "x".to_string(), base: Box::new(CoreType::Int), pred: Box::new(pred) };
    assert!(matches!(check_value_against(Value::Int(11), &ty, &Env::new(), &env), Ok(Value::Int(11))));
    assert_eq!(
        check_value_against(Value::Int(10), &ty, &Env::new(), &env).unwrap_err().code(),
        reconf::error::ErrorCode::RefineFailed
    );
}

#[test]
fn declarations_evaluate_deterministically() {
    let src = "let a = [1, 2];\nlet b = { x = a };\nb";
    let compiler = reconf::compiler::Compiler::new();
    let first = compiler.eval(reconf::compiler::SourceInput::new("m", "", src)).unwrap();
    let second = compiler.eval(reconf::compiler::SourceInput::new("m", "", src)).unwrap();
    assert_eq!(
        reconf::emit::json::emit_json(first.output(), false).unwrap(),
        reconf::emit::json::emit_json(second.output(), false).unwrap()
    );
}

#[test]
fn dot_import_names_the_same_module() {
    for base in ["", "dir", "dir/", "/abs/dir"] {
        for rel in ["self.reconf", "sub/x.reconf", "../up.reconf", ""] {
            let dotted = format!("./{rel}");
            assert_eq!(reconf::compiler::join_path(base, &dotted), reconf::compiler::join_path(base, rel));
        }
    }
}

fn spanned(t: CoreType, start: usize) -> CoreType {
    CoreType::Spanned(Box::new(t), ByteRange::new(start, start + 1))
}

fn server_record(port: CoreType, tags: CoreType) -> CoreType {
    let mut fields = FieldMap::new();
    fields.insert("port".to_string(), port);
    fields.insert("tags".to_string(), tags);
    CoreType::Record(fields)
}

#[test]
fn equivalence_is_symmetric_and_transitive() {
    let a = server_record(spanned(CoreType::Int, 1), CoreType::List(Box::new(CoreType::String)));
    let b = spanned(server_record(CoreType::Int, spanned(CoreType::List(Box::new(spanned(CoreType::String, 5))), 4)), 0);
    let c = server_record(CoreType::Int, CoreType::List(Box::new(CoreType::String)));
    assert!(CoreTypeEquivalence::equivalent(&a, &b));
    assert!(CoreTypeEquivalence::equivalent(&b, &a));
    assert!(CoreTypeEquivalence::equivalent(&b, &c));
    assert!(CoreTypeEquivalence::equivalent(&a, &c));
    assert!(CoreTypeEquivalence::equivalent(&c, &a));
    let d = server_record(CoreType::Int, CoreType::List(Box::new(CoreType::Int)));
    assert!(!CoreTypeEquivalence::equivalent(&a, &d));
    assert!(!CoreTypeEquivalence::equivalent(&d, &a));
}

#[test]
fn validator_refuses_unknown_and_self_reaching_aliases() {
    let mut env = CoreTypeEnv::new();
    env.define("Loop".to_string(), CoreType::List(Box::new(CoreType::Alias("Loop".to_string()))));
    env.define("Port".to_string(), CoreType::Int);
    let validator = CoreTypeValidator::new(&env);
    let unknown = CoreType::Option(Box::new(CoreType::Alias("Missing".to_string())));
    assert_eq!(validator.well_formed(&unknown).unwrap_err().code(), reconf::error::ErrorCode::TypeUnknown);
    let looping = CoreType::Alias("Loop".to_string());
    assert_eq!(validator.well_formed(&looping).unwrap_err().code(), reconf::error::ErrorCode::TypeRecursiveAlias);
    assert!(validator.well_formed(&server_record(CoreType::Int, CoreType::Bool)).is_ok());
    assert!(validator.well_formed(&CoreType::Alias("Port".to_string())).is_ok());
}
