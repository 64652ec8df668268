use reconf::core_lang::ast::{CoreExpr, CoreType, TypeAliasRef};
use reconf::core_lang::types::EmptyCoreTypeContext;
use reconf::error::{ByteRange, ErrorCode};
use reconf::typeck::module::{CoreModuleElaborator, ResolvedDecl};
use reconf::fields::FieldMap;
use reconf::typeck::CoreElaborator;

#[test]
fn elaborator_inserts_implicit_some_for_expected_option() {
    let typed = CoreElaborator::new()
        .check_expr(CoreExpr::Int(1), &CoreType::Option(Box::new(CoreType::Int)))
        .unwrap();

    assert_eq!(typed.expr, CoreExpr::OptSome(Box::new(CoreExpr::Int(1))));
}

#[test]
fn elaborator_inserts_omitted_optional_record_fields() {
    let mut fields = FieldMap::new();
    fields.insert("host".to_string(), CoreType::String);
    fields.insert(
        "port".to_string(),
        CoreType::Option(Box::new(CoreType::Int)),
    );

    let mut input = FieldMap::new();
    input.insert(
        "host".to_string(),
        CoreExpr::String("localhost".to_string()),
    );

    let typed = CoreElaborator::new()
        .check_expr(CoreExpr::Record(input), &CoreType::Record(fields))
        .unwrap();

    let CoreExpr::Record(output) = typed.expr else {
        panic!("expected elaborated record");
    };

    assert_eq!(output.get("port"), Some(&CoreExpr::OptNone));
}

#[test]
fn elaborator_removes_nested_checked_lets() {
    let expr = CoreExpr::Let(
        "x".to_string(),
        Some(CoreType::Option(Box::new(CoreType::Int))),
        Box::new(CoreExpr::Int(1)),
        Box::new(CoreExpr::Var("x".to_string())),
    );

    let typed = CoreElaborator::new()
        .check_expr(expr, &CoreType::Int)
        .unwrap();

    let CoreExpr::Let(_, annotation, value, _) = typed.expr else {
        panic!("expected let");
    };
    assert!(annotation.is_none());
    assert_eq!(*value, CoreExpr::OptSome(Box::new(CoreExpr::Int(1))));
}

#[test]
fn elaborator_erases_checked_ascription_context() {
    let expr = CoreExpr::Ascribe(
        Box::new(CoreExpr::Int(1)),
        CoreType::Option(Box::new(CoreType::Int)),
    );

    let typed = CoreElaborator::new()
        .check_expr(expr, &CoreType::Option(Box::new(CoreType::Int)))
        .unwrap();

    assert_eq!(typed.expr, CoreExpr::OptSome(Box::new(CoreExpr::Int(1))));
}

#[test]
fn recursive_alias_points_at_its_mention() {
    let context = EmptyCoreTypeContext;
    let mention = CoreType::Spanned(Box::new(CoreType::Alias("A".to_string())), ByteRange::new(8, 9));
    let mut elaborator = CoreModuleElaborator::new(&context);
    let decl = ResolvedDecl::Type { export: false, name: "A".to_string(), alias: TypeAliasRef::new(0), ty: CoreType::List(Box::new(mention)) };
    let error = match elaborator.elaborate_resolved_module(vec![decl], None) {
        Err(error) => error,
        Ok(_) => panic!("a recursive alias was accepted"),
    };
    assert_eq!(error.code(), ErrorCode::TypeRecursiveAlias);
    assert_eq!(error.message(), "recursive type alias `A`");
    assert_eq!(error.diagnostic_labels().len(), 1);
    assert_eq!(error.diagnostic_labels()[0].span, ByteRange::new(8, 9));
    assert_eq!(error.diagnostic_labels()[0].message, "recursive type alias `A`");

    let mut plain = CoreModuleElaborator::new(&context);
    let unspanned = ResolvedDecl::Type { export: false, name: "A".to_string(), alias: TypeAliasRef::new(0), ty: CoreType::Alias("A".to_string()) };
    let error = match plain.elaborate_resolved_module(vec![unspanned], None) {
        Err(error) => error,
        Ok(_) => panic!("a recursive alias was accepted"),
    };
    assert_eq!(error.code(), ErrorCode::TypeRecursiveAlias);
    assert!(error.diagnostic_labels().is_empty());
}
