use reconf::repl::eval::ReplEvaluator;
use reconf::repl::highlighter::{semantic_type_spans_for_test, syntax_definition_source};
use reconf::repl::is_complete_reconf_input;
use reconf::repl::semantic::SemanticState;
use reconf::syntax::parser::parse;

#[test]
fn validator_accepts_complete_input() {
    assert!(is_complete_reconf_input("let a = (1 + 2)"));
    assert!(is_complete_reconf_input(r#"let a = "{not structural}""#));
    assert!(is_complete_reconf_input("let a = { x = 1 } # {"));
    assert!(is_complete_reconf_input("[{ port = 8080 }]"));
}

#[test]
fn validator_rejects_incomplete_input() {
    assert!(!is_complete_reconf_input("let a = ("));
    assert!(!is_complete_reconf_input("let a = { x = 1"));
    assert!(!is_complete_reconf_input(r#"let a = "{unterminated"#));
    assert!(!is_complete_reconf_input("]"));
}

#[test]
fn syntax_definition_keeps_builtins_and_types_out_of_keywords() {
    let syntax = syntax_definition_source();
    let keyword_section = syntax
        .split("keywords:")
        .nth(1)
        .unwrap()
        .split("literals:")
        .next()
        .unwrap();

    for ordinary_identifier in ["startsWith", "contains", "isSome", "unwrapOr", "length"] {
        assert!(
            !keyword_section.contains(ordinary_identifier),
            "{ordinary_identifier} should be highlighted as an identifier, not a keyword"
        );
    }

    for type_word in ["Int", "Float", "Bool", "String"] {
        assert!(
            !keyword_section.contains(type_word),
            "{type_word} should be highlighted by the type-name rule, not as a keyword"
        );
    }

    assert!(syntax.contains("entity.name.type.reconf"));
    assert!(syntax.contains("variable.other.reconf"));
}

#[test]
fn semantic_highlighting_tracks_custom_types() {
    let mut semantics = SemanticState::new();
    let file = parse(
        r#"
        import "./schema.reconf": ImportedTy;
        type Port = { x : Int | x > 1024 };
        let p : Port = 8080;
        p
        "#,
    )
    .unwrap();
    semantics.learn_file(&file);

    let line = "let x : Port = (8080 : Int); let y : ImportedTy = x; startsWith";
    let spans = semantic_type_spans_for_test(line, &semantics);
    let highlighted: Vec<&str> = spans.iter().map(|(a, b)| &line[*a..*b]).collect();

    assert!(highlighted.contains(&"Port"));
    assert!(highlighted.contains(&"Int"));
    assert!(highlighted.contains(&"ImportedTy"));
    assert!(!highlighted.contains(&"startsWith"));
}

#[test]
fn repl_evaluator_keeps_successful_declarations() {
    let mut evaluator = ReplEvaluator::new(SemanticState::new());

    assert_eq!(
        evaluator
            .eval("type Port = { x : Int | x > 1024 };")
            .unwrap(),
        "0"
    );
    assert_eq!(evaluator.eval("let p : Port = 8080;").unwrap(), "0");
    assert_eq!(evaluator.eval("p").unwrap(), "8080");
}

#[test]
fn repl_failed_declarations_are_not_kept() {
    let mut evaluator = ReplEvaluator::new(SemanticState::new());
    assert_eq!(evaluator.eval("type Port = { x : Int | x > 1024 };").unwrap(), "0");
    let error = evaluator.eval("let p : Port = 80;").unwrap_err();
    assert_eq!(error.code(), reconf::error::ErrorCode::RefineFailed);
    assert!(evaluator.eval("p").is_err());
    assert_eq!(evaluator.eval("let p : Port = 8080;").unwrap(), "0");
    assert_eq!(evaluator.eval("{ port = p }").unwrap(), "{ port = 8080 }");
}

#[test]
fn repl_learns_declared_type_words() {
    let mut evaluator = ReplEvaluator::new(SemanticState::new());
    assert!(!evaluator.semantics().contains_type("Port"));
    evaluator.eval("type Port = Int;").unwrap();
    assert!(evaluator.semantics().contains_type("Port"));
    assert!(evaluator.semantics().contains_type("Int"));
}

#[test]
fn semantic_spans_skip_strings_and_comments() {
    let semantics = SemanticState::new();
    let line = r#"Int "Int \" Int" Bool # String"#;
    let spans = semantic_type_spans_for_test(line, &semantics);
    assert_eq!(spans, vec![(0, 3), (17, 21)]);
}

#[test]
fn validator_requires_matching_brackets() {
    assert!(!is_complete_reconf_input("(]"));
    assert!(is_complete_reconf_input("let a = 1"));
    assert!(is_complete_reconf_input(""));
    assert!(!is_complete_reconf_input("\"a\\\""));
}

#[test]
fn repl_errors_carry_source_labels() {
    let mut evaluator = ReplEvaluator::new(SemanticState::new());

    let error = evaluator
        .eval("let config = { port = 8080 } : { port : Port };")
        .unwrap_err();

    assert!(error.message().contains("unknown type `Port`"));
    assert!(error.source_text().unwrap().contains("let config"));
    let labels = error.diagnostic_labels();
    assert!(!labels.is_empty());
    assert!(labels.iter().any(|label| label.message.contains("Port")));
}

#[test]
fn fresh_repl_keeps_a_number_binding_and_answers_a_number() {
    let mut evaluator = ReplEvaluator::new(SemanticState::new());
    assert_eq!(evaluator.eval("42").unwrap(), "42");
    assert_eq!(evaluator.eval("let x = 5;").unwrap(), "0");
    assert_eq!(evaluator.eval("x").unwrap(), "5");
}

#[test]
fn parser_reads_lone_atoms_and_simple_declarations() {
    let file = parse("7").unwrap();
    assert!(file.decls.is_empty());
    assert!(file.output.is_some());
    let file = parse("").unwrap();
    assert!(file.decls.is_empty());
    assert!(file.output.is_none());
    let file = parse("let x = 5;").unwrap();
    assert_eq!(file.decls.len(), 1);
    let file = parse("type N = Alias;").unwrap();
    assert_eq!(file.decls.len(), 1);
    assert!(file.output.is_none());
    let file = parse("if a then b else c").unwrap();
    assert!(file.output.is_some());
    let file = parse("let y = 1 in y").unwrap();
    assert!(file.output.is_some());
    let file = parse("(x : Int) => x").unwrap();
    assert!(file.output.is_some());
    for src in ["[]", "{}", "(1)", "some 1", "[1]", "{ a = 1 }"] {
        assert!(parse(src).unwrap().output.is_some());
    }
    assert!(parse("type R = { a : Int };").is_ok());
    assert!(parse("type P = { x : Int | x > 0 };").is_ok());
    assert!(parse("import \"lib.reconf\": a;").is_ok());
}

#[test]
fn repl_lexical_errors_point_into_the_input() {
    let mut evaluator = ReplEvaluator::new(SemanticState::new());
    let error = evaluator.eval("1 + \"abc").unwrap_err();
    assert_eq!(error.code(), reconf::error::ErrorCode::ParseUnterminatedString);
    assert_eq!(error.source_name(), Some("repl"));
    assert_eq!(error.source_text(), Some("1 + \"abc"));
    assert_eq!(error.diagnostic_labels().len(), 1);
    assert_eq!(error.diagnostic_labels()[0].message, error.message());
    assert_eq!(evaluator.eval("let a = 1;\nlet b = 2;").unwrap(), "0");
    assert_eq!(evaluator.eval("7").unwrap(), "7");
}

#[test]
fn repl_keeps_literal_bindings() {
    let mut evaluator = ReplEvaluator::new(SemanticState::new());
    assert_eq!(evaluator.eval("let on = true;\nlet n = 2;").unwrap(), "0");
    assert_eq!(evaluator.eval("on").unwrap(), "true");
    assert_eq!(evaluator.eval("true").unwrap(), "true");
}

#[test]
fn repl_keeps_an_alias_of_a_built_in_type() {
    let mut evaluator = ReplEvaluator::new(SemanticState::new());
    assert_eq!(evaluator.eval("type Port = Int;").unwrap(), "0");
    assert_eq!(evaluator.eval("let p : Port = 8080;").unwrap(), "0");
    assert_eq!(evaluator.eval("p").unwrap(), "8080");
    assert!(evaluator.eval("let q : Port = true;").is_err());
}
