use reconf::cli::{explain_code, output_style, OutputStyle};
use reconf::emit::data::DataValue;
use reconf::emit::reconf::ReconfEmitter;
use reconf::error::{ByteRange, Error, ErrorCode};
use reconf::repl::diagnostics::{
    attach_best_effort_span, find_refinement_value, find_word, named_unknown_type,
};
use reconf::repl::highlighter::{apply_semantic_spans, semantic_type_spans_for_test, StyledRun};
use reconf::repl::input::{shown_answer, trim_chars, LineAction, LineBuffer};
use reconf::repl::prompt::{keywords, left_prompt, multiline_indicator, right_prompt};
use reconf::repl::semantic::SemanticState;
use reconf::syntax::parser::parse;

#[test]
fn explain_prints_code_and_explanation() {
    assert_eq!(
        explain_code("E_REFINE_004"),
        "E_REFINE_004: refinement predicate evaluated to false"
    );
    assert_eq!(explain_code("E_MODULE_002"), "E_MODULE_002: cyclic module import");
    assert_eq!(explain_code("E_NOPE_999"), "unknown diagnostic code");
    assert_eq!(explain_code(""), "unknown diagnostic code");
}

#[test]
fn output_flags_select_layout() {
    assert_eq!(output_style(true, false), OutputStyle::Pretty);
    assert_eq!(output_style(false, true), OutputStyle::Compact);
    assert_eq!(output_style(false, false), OutputStyle::Pretty);
}

#[test]
fn find_word_skips_words_inside_identifiers() {
    assert_eq!(find_word("let x : Port = 1", "Port"), Some(ByteRange::new(8, 12)));
    assert_eq!(find_word("Portal Port", "Port"), Some(ByteRange::new(7, 11)));
    assert_eq!(find_word("my-Port Port_x", "Port"), None);
    assert_eq!(find_word("", "Port"), None);
}

#[test]
fn find_word_counts_bytes_of_wide_characters() {
    // `é` takes two bytes and `→` three.
    assert_eq!(find_word("é → Port", "Port"), Some(ByteRange::new(7, 11)));
}

#[test]
fn find_word_resumes_after_a_rejected_match() {
    // The match at 1 is glued to `x`; the search goes on from its end (4),
    // so the occurrence at 3 that overlaps it is not considered.
    assert_eq!(find_word("xa.a.a", "a.a"), None);
    assert_eq!(find_word("a.a.a", "a.a"), Some(ByteRange::new(0, 3)));
}

#[test]
fn refinement_value_is_taken_before_the_last_colon() {
    assert_eq!(find_refinement_value("let p = 80 : Port"), Some(ByteRange::new(8, 10)));
    assert_eq!(find_refinement_value("{ port = 80 : Port }"), Some(ByteRange::new(9, 11)));
    assert_eq!(find_refinement_value("{ port = (80\t) : Port }"), Some(ByteRange::new(13, 14)));
    assert_eq!(find_refinement_value("let a : A = { b = x: B }"), Some(ByteRange::new(18, 19)));
    assert_eq!(find_refinement_value("no colon here"), None);
    assert_eq!(find_refinement_value("= : T"), None);
}

#[test]
fn unknown_type_message_names_the_type() {
    assert_eq!(named_unknown_type("unknown type `Port`"), Some("Port".to_string()));
    assert_eq!(named_unknown_type("unknown type ``"), Some(String::new()));
    assert_eq!(named_unknown_type("unknown type `"), None);
    assert_eq!(named_unknown_type("type mismatch"), None);
}

#[test]
fn best_effort_span_points_at_unknown_type() {
    let error = Error::with_code(ErrorCode::TypeUnknown, "unknown type `Port`");
    let error = attach_best_effort_span(error, "main.reconf", "let p : Port = 1\np");
    assert_eq!(error.source_name(), Some("main.reconf"));
    assert_eq!(error.source_text(), Some("let p : Port = 1\np"));
    let labels = error.diagnostic_labels();
    assert_eq!(labels.len(), 1);
    assert_eq!(labels[0].span, ByteRange::new(8, 12));
    assert_eq!(labels[0].message, "unknown type `Port`");
    assert_eq!(error.code(), ErrorCode::TypeUnknown);
}

#[test]
fn best_effort_span_points_at_refined_value() {
    let error = Error::with_code(ErrorCode::RefineFailed, "refinement failed for `Port`");
    let error = attach_best_effort_span(error, "main.reconf", "let p = 80 : Port");
    let labels = error.diagnostic_labels();
    assert_eq!(labels.len(), 1);
    assert_eq!(labels[0].span, ByteRange::new(8, 10));
    assert_eq!(labels[0].message, "value does not satisfy refinement");
}

#[test]
fn best_effort_span_leaves_other_errors_alone() {
    let error = Error::with_code(ErrorCode::TypeMismatch, "type mismatch");
    let error = attach_best_effort_span(error, "main.reconf", "let p = 80 : Port");
    assert!(!error.has_source_code());
    assert!(error.diagnostic_labels().is_empty());
    // An unknown type whose name does not occur falls through to nothing.
    let error = Error::new("unknown type `Missing`");
    let error = attach_best_effort_span(error, "main.reconf", "let p = 80");
    assert!(!error.has_source_code());
}

#[test]
fn semantic_spans_cut_highlighted_pieces() {
    let runs = apply_semantic_spans(&vec![3, 5], &vec![(1, 4)]);
    assert_eq!(
        runs,
        vec![
            StyledRun { piece: 0, start: 0, end: 1, semantic: false },
            StyledRun { piece: 0, start: 1, end: 3, semantic: true },
            StyledRun { piece: 1, start: 0, end: 1, semantic: true },
            StyledRun { piece: 1, start: 1, end: 5, semantic: false },
        ]
    );
    assert_eq!(
        apply_semantic_spans(&vec![4], &vec![]),
        vec![StyledRun { piece: 0, start: 0, end: 4, semantic: false }]
    );
    assert!(apply_semantic_spans(&vec![], &vec![(0, 2)]).is_empty());
}

#[test]
fn highlighted_line_is_covered_by_runs() {
    let mut semantics = SemanticState::new();
    let file = parse("type Port = Int;\n0").unwrap();
    semantics.learn_file(&file);
    let line = "let p : Port = \"Port\" # Port";
    let spans = semantic_type_spans_for_test(line, &semantics);
    assert_eq!(spans, vec![(8, 12)]);
    for window in spans.windows(2) {
        assert!(window[0].1 <= window[1].0);
    }
    let lens = vec![4, 6, 9, 9];
    let runs = apply_semantic_spans(&lens, &spans);
    let mut rebuilt = String::new();
    let mut offset = 0;
    let mut piece = 0;
    for run in &runs {
        while run.piece != piece {
            offset += lens[piece];
            piece += 1;
        }
        rebuilt.push_str(&line[offset + run.start..offset + run.end]);
        if run.semantic {
            assert!(8 <= offset + run.start && offset + run.end <= 12);
        }
    }
    assert_eq!(rebuilt, line);
}

#[test]
fn line_buffer_gathers_multiline_input() {
    let mut buffer = LineBuffer::new();
    assert_eq!(buffer.feed("   "), LineAction::Skip);
    assert_eq!(buffer.feed("let x = {"), LineAction::Pending);
    assert_eq!(buffer.feed(""), LineAction::Pending);
    assert_eq!(buffer.feed("  a = 1 }  "), LineAction::Evaluate("let x = {\n\na = 1 }".to_string()));
    assert_eq!(buffer.feed(" 1 + 2 "), LineAction::Evaluate("1 + 2".to_string()));
    assert_eq!(buffer.feed("quit"), LineAction::Quit);
}

#[test]
fn quit_words_only_end_the_repl_between_inputs() {
    let mut buffer = LineBuffer::new();
    assert_eq!(buffer.feed(":q"), LineAction::Quit);
    assert_eq!(buffer.feed("exit"), LineAction::Quit);
    assert_eq!(buffer.feed(":quit"), LineAction::Quit);
    assert_eq!(buffer.feed("["), LineAction::Pending);
    assert_eq!(buffer.feed("exit"), LineAction::Pending);
    assert_eq!(buffer.feed("]"), LineAction::Evaluate("[\nexit\n]".to_string()));
}

#[test]
fn trimming_removes_unicode_white_space() {
    let chars: Vec<char> = "\u{3000}\t x y \u{a0}\n".chars().collect();
    assert_eq!(trim_chars(&chars), vec!['x', ' ', 'y']);
    assert!(trim_chars(&vec![' ', '\u{2028}']).is_empty());
}

#[test]
fn declarations_answer_shows_nothing() {
    assert_eq!(shown_answer("let x = 1;", "0"), "");
    assert_eq!(shown_answer("1 - 1", "0"), "0");
    assert_eq!(shown_answer("let x = 1;", "1"), "1");
}

#[test]
fn prompt_texts() {
    assert_eq!(left_prompt(), "reconf ");
    assert_eq!(right_prompt(0), " -<0>- ");
    assert_eq!(right_prompt(42), " -<42>- ");
    assert_eq!(multiline_indicator("reconf "), "       | ");
    assert_eq!(multiline_indicator(""), "| ");
    let words = keywords();
    assert_eq!(words.len(), 13);
    assert_eq!(words[0], "import");
    assert_eq!(words[12], "some");
}

#[test]
fn reconf_text_quotes_strings_as_debug_does() {
    let emitter = ReconfEmitter::new();
    assert_eq!(emitter.emit(&DataValue::Str("a\"b\\c\nd".to_string())), "\"a\\\"b\\\\c\\nd\"");
    assert_eq!(emitter.emit(&DataValue::Str(String::new())), "\"\"");
    assert_eq!(
        emitter.emit(&DataValue::List(vec![DataValue::Str("x".to_string()), DataValue::OptNone])),
        "[\"x\", none]"
    );
}
