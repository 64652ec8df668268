use reconf::syntax::parser::parse;
use reconf::syntax::surface::{Decl, Expr, Type};

/// The expression without its span wrappers, printed with explicit
/// parentheses around every operation.
fn shape(e: &Expr) -> String {
    match e {
        Expr::Spanned(inner, _) => shape(inner),
        Expr::Int(v) => v.to_string(),
        Expr::Var(n) => n.clone(),
        Expr::Bool(b) => b.to_string(),
        Expr::String(s) => format!("{s:?}"),
        Expr::Binary(op, a, b) => format!("({} {} {})", shape(a), op, shape(b)),
        Expr::Unary(op, a) => format!("({}{})", op, shape(a)),
        Expr::Apply(f, a) => format!("({} {})", shape(f), shape(a)),
        Expr::Field(x, n) => format!("{}.{}", shape(x), n),
        Expr::OptSome(x) => format!("(some {})", shape(x)),
        Expr::OptNone => "none".to_string(),
        Expr::List(items) => format!("[{}]", items.iter().map(shape).collect::<Vec<_>>().join(", ")),
        Expr::Record(fields) => format!(
            "{{{}}}",
            fields.iter().map(|(n, v)| format!("{n} = {}", shape(v))).collect::<Vec<_>>().join(", ")
        ),
        Expr::If(c, a, b) => format!("(if {} then {} else {})", shape(c), shape(a), shape(b)),
        Expr::Let(n, _, v, b) => format!("(let {n} = {} in {})", shape(v), shape(b)),
        Expr::Ascribe(x, _) => format!("({} : _)", shape(x)),
        Expr::Lambda(p, _, b) => format!("(\\{p} => {})", shape(b)),
        other => format!("{other:?}"),
    }
}

fn output_shape(src: &str) -> String {
    shape(parse(src).unwrap().output.as_ref().unwrap())
}

#[test]
fn operators_bind_by_precedence() {
    assert_eq!(output_shape("1 + 2 * 3"), "(1 + (2 * 3))");
    assert_eq!(output_shape("(1 + 2) * 3"), "((1 + 2) * 3)");
    assert_eq!(output_shape("1 - 2 - 3"), "((1 - 2) - 3)");
    assert_eq!(output_shape("a || b && c == d"), "(a || (b && (c == d)))");
    assert_eq!(output_shape("-a.b c"), "(-(a.b c))");
    assert_eq!(output_shape("f x y"), "((f x) y)");
}

#[test]
fn loose_forms_take_the_rest_of_the_expression() {
    assert_eq!(output_shape("let x = 1 in x + 1"), "(let x = 1 in (x + 1))");
    assert_eq!(output_shape("if a then 1 else 2 + 3"), "(if a then 1 else (2 + 3))");
    assert_eq!(output_shape("(x : Int) => x"), "(\\x => x)");
    assert_eq!(output_shape("some 1 + 2"), "(some (1 + 2))");
}

#[test]
fn lists_and_records_allow_a_trailing_comma() {
    assert_eq!(output_shape("[1, 2,]"), "[1, 2]");
    assert_eq!(output_shape("[]"), "[]");
    assert_eq!(output_shape("{ a = 1, b = [none], }"), "{a = 1, b = [none]}");
}

#[test]
fn declarations_come_before_the_output() {
    let file = parse("import \"lib.reconf\": A, b;\nexport type P = { x : Int | x > 0 };\nlet v : P? = 1;\nv").unwrap();
    assert_eq!(file.decls.len(), 3);
    assert!(matches!(&file.decls[0], Decl::Import { path, names } if path == "lib.reconf" && names.len() == 2));
    assert!(matches!(&file.decls[1], Decl::Type { export: true, name, .. } if name == "P"));
    match &file.decls[2] {
        Decl::Let { export: false, name, annotation: Some(Type::Spanned(inner, _)), .. } => {
            assert_eq!(name, "v");
            assert!(matches!(inner.as_ref(), Type::Option(_)));
        },
        other => panic!("unexpected declaration {other:?}"),
    }
    assert_eq!(output_shape("let v = 1;\nv"), "v");
}

#[test]
fn lists_of_atoms_parse_item_by_item() {
    let file = parse("[1, x, true, \"s\"]").unwrap();
    assert!(file.decls.is_empty());
    assert_eq!(shape(file.output.as_ref().unwrap()), "[1, x, true, \"s\"]");
    let nested = parse("let xs = [1, 2];\n[xs, [3]]").unwrap();
    assert_eq!(nested.decls.len(), 1);
    assert_eq!(shape(nested.output.as_ref().unwrap()), "[xs, [3]]");
}

#[test]
fn records_of_atoms_parse_field_by_field() {
    let file = parse("{ a = 1, b = x, c = \"s\" }").unwrap();
    assert_eq!(shape(file.output.as_ref().unwrap()), "{a = 1, b = x, c = \"s\"}");
    assert!(parse("{ a = 1, a = 2 }").is_err());
}

#[test]
fn operator_chains_parse_by_precedence() {
    let file = parse("a || b && c == 1 + 2 * x").unwrap();
    assert!(file.decls.is_empty());
    assert_eq!(shape(file.output.as_ref().unwrap()), "(a || (b && (c == (1 + (2 * x)))))");
    let left = parse("1 - 2 - 3 < 4").unwrap();
    assert_eq!(shape(left.output.as_ref().unwrap()), "(((1 - 2) - 3) < 4)");
}

#[test]
fn grouped_and_prefixed_operands_join_operator_chains() {
    assert_eq!(output_shape("-(1 + 2) * !x"), "((-(1 + 2)) * (!x))");
    assert_eq!(output_shape("!a || (b && c) == d"), "((!a) || ((b && c) == d))");
}
