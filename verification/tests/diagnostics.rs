use reconf::compiler::diagnostic_error;
use reconf::diagnostic::DiagnosticSource;
use reconf::error::{ByteRange, ErrorCode};
use reconf::syntax::parser::parse;
use reconf::Error;

fn span_text<'a>(source: &'a str, span: &ByteRange) -> &'a str {
    &source[span.start..span.end]
}

#[test]
fn error_keeps_structured_labels_and_notes() {
    let error = Error::with_code(ErrorCode::TypeMismatch, "type mismatch")
        .with_source("input.reconf", "let x = 1")
        .with_label(ByteRange::new(4, 5), "binding")
        .with_note("expected Bool");

    assert_eq!(error.code(), ErrorCode::TypeMismatch);
    assert_eq!(error.diagnostic_labels().len(), 1);
    assert_eq!(error.diagnostic_labels()[0].span, ByteRange::new(4, 5));
    assert_eq!(error.diagnostic_labels()[0].message, "binding");
    assert_eq!(error.notes(), &["expected Bool".to_string()]);
}

#[test]
fn error_can_hold_multiple_structured_labels() {
    let error = Error::new("duplicate name")
        .with_source("input.reconf", "let x = 1\nlet x = 2")
        .with_label(ByteRange::new(4, 5), "first")
        .with_label(ByteRange::new(14, 15), "second");

    let labels = error.diagnostic_labels();

    assert_eq!(labels.len(), 2);
    assert_eq!(labels[0].message, "first");
    assert_eq!(labels[1].message, "second");
}

#[test]
fn diagnostic_source_attaches_boundary_source_to_labeled_error() {
    let error = Error::with_code(ErrorCode::TypeMismatch, "type mismatch")
        .with_label(ByteRange::new(4, 5), "binding");
    let error = DiagnosticSource::new("input.reconf", "let x = 1").attach(error);

    assert_eq!(error.source_name(), Some("input.reconf"));
    assert_eq!(error.diagnostic_labels()[0].span, ByteRange::new(4, 5));
}

#[test]
fn diagnostic_source_renames_placeholder_source() {
    let error = Error::with_code(ErrorCode::TypeMismatch, "type mismatch")
        .with_label(ByteRange::new(4, 5), "binding")
        .with_placeholder_source("let x = 1");
    let error = DiagnosticSource::new("input.reconf", "let x = 1").attach(error);

    assert_eq!(error.source_name(), Some("input.reconf"));
    assert_eq!(error.diagnostic_labels()[0].span, ByteRange::new(4, 5));
}

#[test]
fn diagnostic_source_leaves_unlabelled_errors_alone() {
    let error = Error::with_code(ErrorCode::TypeMismatch, "type mismatch");
    let error = DiagnosticSource::new("input.reconf", "let x = 1").attach(error);
    assert_eq!(error.source_name(), None);

    let error = Error::new("other")
        .with_label(ByteRange::new(0, 1), "here")
        .with_source("kept.reconf", "x");
    let error = DiagnosticSource::new("input.reconf", "let x = 1").attach(error);
    assert_eq!(error.source_name(), Some("kept.reconf"));
    assert_eq!(error.source_text(), Some("x"));
}

#[test]
fn parser_duplicate_field_diagnostic_has_producer_owned_label() {
    let source = "{ port = 1, port = 2 }";
    let error = diagnostic_error(parse(source).unwrap_err());

    assert_eq!(error.code(), ErrorCode::RecordDuplicateField);
    assert_eq!(error.diagnostic_labels().len(), 1);
    assert_eq!(span_text(source, &error.diagnostic_labels()[0].span), "port");
    assert_eq!(
        error.diagnostic_labels()[0].message,
        "duplicate field `port`"
    );
}

#[test]
fn parser_empty_interpolation_diagnostic_has_producer_owned_label() {
    let source = r#""prefix {} suffix""#;
    let error = diagnostic_error(parse(source).unwrap_err());

    assert_eq!(error.code(), ErrorCode::ParseEmptyInterpolation);
    assert_eq!(error.diagnostic_labels().len(), 1);
    assert_eq!(span_text(source, &error.diagnostic_labels()[0].span), "{}");
    assert_eq!(error.diagnostic_labels()[0].message, "empty interpolation");
}

#[test]
fn parser_unterminated_interpolation_diagnostic_has_producer_owned_label() {
    let source = r#""prefix {value""#;
    let error = diagnostic_error(parse(source).unwrap_err());

    assert_eq!(error.code(), ErrorCode::ParseUnterminatedString);
    assert_eq!(error.diagnostic_labels().len(), 1);
    assert_eq!(span_text(source, &error.diagnostic_labels()[0].span), "{value");
    assert_eq!(
        error.diagnostic_labels()[0].message,
        "unterminated interpolation"
    );
}

#[test]
fn parser_does_not_classify_regular_parse_error_as_empty_interpolation() {
    let source = "let text = ; # {}";
    let error = diagnostic_error(parse(source).unwrap_err());

    assert_ne!(error.code(), ErrorCode::ParseEmptyInterpolation);
}

#[test]
fn parser_unterminated_string_error_is_classified_without_source_wide_quote_counting() {
    let source = r#"{ closed = "ok", broken = "not closed }"#;
    let error = diagnostic_error(parse(source).unwrap_err());

    assert_eq!(error.code(), ErrorCode::ParseUnterminatedString);
}

#[test]
fn error_codes_round_trip_through_their_text() {
    for code in [
        ErrorCode::RefineFailed,
        ErrorCode::TypeMismatch,
        ErrorCode::RecordMissingField,
        ErrorCode::ModuleCycle,
        ErrorCode::OutputFunction,
    ] {
        assert_eq!(ErrorCode::from_code(code.as_str()), Some(code));
    }
    assert_eq!(ErrorCode::from_code("E_NOPE_000"), None);
    assert_eq!(ErrorCode::RefineFailed.as_str(), "E_REFINE_004");
}
