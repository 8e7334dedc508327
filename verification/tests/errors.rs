use lang::frontend::errors::{CompileError, ErrorLabel, LabelColor, Severity};
use lang::frontend::parsers::common::{Expectation, ParseError};

fn chars(s: &str) -> Vec<char> {
    s.chars().collect()
}

#[test]
fn tree_base_label_covers_fragment_bytes() {
    let e = CompileError::tree_base(3, &chars("ab"), Expectation::Char('x'));
    assert_eq!(e.kind, Severity::Error);
    assert_eq!(e.location, 3);
    assert_eq!(e.summary, "Expected 'x' but found ab instead");
    assert_eq!(e.labels.len(), 1);
    assert_eq!(e.labels[0].start, 3);
    assert_eq!(e.labels[0].end, 5);
    assert_eq!(e.labels[0].message, "Expected 'x' here");
    assert_eq!(e.labels[0].color, Some(LabelColor::Red));
    assert!(e.context.is_empty());
}

#[test]
fn tree_base_counts_multibyte_fragment() {
    let e = CompileError::tree_base(0, &chars("é⌊"), Expectation::Digit);
    assert_eq!(e.labels[0].end, 5);
    assert_eq!(e.summary, "Expected an ascii digit but found é⌊ instead");
}

#[test]
fn parse_error_is_reported_at_its_byte_offset() {
    let err = ParseError { pos: 1, expected: Expectation::Char(';'), fatal: false };
    let e = CompileError::from_parse_error(&err, &chars("éxy"));
    assert_eq!(e.location, 2);
    assert_eq!(e.labels[0].start, 2);
    assert_eq!(e.labels[0].end, 4);
    assert_eq!(e.summary, "Expected ';' but found xy instead");
}

#[test]
fn alternatives_are_listed_at_the_first_byte_offset() {
    let alts = vec![(1, Expectation::Char('a')), (1, Expectation::Digit)];
    let e = CompileError::tree_alt(&alts, &chars("éz"));
    assert_eq!(e.location, 2);
    assert_eq!(e.labels[0].start, 2);
    assert_eq!(e.labels[0].end, 3);
    assert_eq!(e.summary, "Expected 'a' or an ascii digit but found z instead");
    assert_eq!(e.labels[0].message, "Expected 'a' or an ascii digit here");
}

#[test]
fn report_labels_colour_own_labels_and_add_context() {
    let mut e = CompileError::raw_error("oops".to_string());
    e.labels.push(ErrorLabel { start: 0, end: 2, message: "here".to_string(), color: None });
    e.labels.push(ErrorLabel { start: 1, end: 3, message: "there".to_string(), color: Some(LabelColor::Red) });
    e.context.push((4, "a type".to_string()));
    let ls = e.report_labels();
    assert_eq!(ls.len(), 3);
    assert_eq!((ls[0].start, ls[0].end, ls[0].message.as_str(), ls[0].color), (0, 2, "here", Some(LabelColor::Primary)));
    assert_eq!((ls[1].start, ls[1].end, ls[1].message.as_str(), ls[1].color), (1, 3, "there", Some(LabelColor::Red)));
    assert_eq!((ls[2].start, ls[2].end, ls[2].message.as_str(), ls[2].color), (4, 4, "while parsing a type", None));
}

#[test]
fn format_draws_the_summary_and_labels() {
    let e = CompileError::tree_base(4, &chars("x"), Expectation::Char(';'));
    let text = e.format("main.lang", "let x");
    assert!(text.contains("Expected ';' but found x instead"));
    assert!(text.contains("Expected ';' here"));
    assert!(text.contains("main.lang"));
}
