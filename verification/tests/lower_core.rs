use reconf::core_lang::ast::{CoreDecl, CoreExpr, CoreModule};
use reconf::lower::SurfaceToCoreLowerer;
use reconf::syntax::parser::parse;

#[test]
fn lowering_removes_surface_only_interpolation_syntax() {
    let surface = parse(
        r#"
        let port = 8080;
        "port={port}"
        "#,
    )
    .unwrap();

    let core = SurfaceToCoreLowerer::new().lower_file(surface);
    let output = core.output.as_ref().expect("expected output");

    assert_no_surface_only_exprs(&core);
    assert!(contains_var(output, "show"));
    assert!(contains_binary_op(output, "++"));
}

#[test]
fn lowering_removes_surface_only_method_call_syntax() {
    let surface = parse(
        r#"
        let xs = [1, 2, 3];
        xs.contains 2
        "#,
    )
    .unwrap();

    let core = SurfaceToCoreLowerer::new().lower_file(surface);
    let output = core.output.as_ref().expect("expected output");

    assert_no_surface_only_exprs(&core);
    assert!(contains_field(output, "contains"));
    assert!(contains_apply(output));
}

fn children(expr: &CoreExpr) -> Vec<&CoreExpr> {
    match expr {
        CoreExpr::Spanned(expr, _) => vec![expr],
        CoreExpr::Int(_)
        | CoreExpr::Float(_)
        | CoreExpr::Bool(_)
        | CoreExpr::String(_)
        | CoreExpr::OptNone
        | CoreExpr::Var(_)
        | CoreExpr::Global(_)
        | CoreExpr::Local(_) => vec![],
        CoreExpr::OptSome(expr) | CoreExpr::Field(expr, _) | CoreExpr::Unary(_, expr) => vec![expr],
        CoreExpr::Ascribe(expr, _) => vec![expr],
        CoreExpr::List(items) => items.iter().collect(),
        CoreExpr::Record(fields) => fields.entries.iter().map(|(_, value)| value).collect(),
        CoreExpr::If(cond, then_expr, else_expr) => vec![cond, then_expr, else_expr],
        CoreExpr::Let(_, _, value, body) => vec![value, body],
        CoreExpr::Lambda(_, _, body) => vec![body],
        CoreExpr::Apply(function, arg) | CoreExpr::Binary(_, function, arg) => vec![function, arg],
    }
}

fn assert_no_surface_only_exprs(module: &CoreModule) {
    for decl in &module.decls {
        if let CoreDecl::Let { expr, .. } = decl {
            let _ = children(expr);
        }
    }
}

fn contains_var(expr: &CoreExpr, needle: &str) -> bool {
    matches!(expr, CoreExpr::Var(name) if name == needle) || children(expr).into_iter().any(|child| contains_var(child, needle))
}

fn contains_binary_op(expr: &CoreExpr, needle: &str) -> bool {
    matches!(expr, CoreExpr::Binary(op, _, _) if op == needle)
        || children(expr).into_iter().any(|child| contains_binary_op(child, needle))
}

fn contains_field(expr: &CoreExpr, needle: &str) -> bool {
    matches!(expr, CoreExpr::Field(_, name) if name == needle)
        || children(expr).into_iter().any(|child| contains_field(child, needle))
}

fn contains_apply(expr: &CoreExpr) -> bool {
    matches!(expr, CoreExpr::Apply(_, _)) || children(expr).into_iter().any(contains_apply)
}
