use lang::common::ScopeMethods;
use lang::frontend::errors::builder::{ErrorBuilder, LineAttachment, SourceLine};

#[test]
fn test() {
    let line = SourceLine("let tmp = 4 + 5;".into(), 4, vec![]).also_mut(|l| {
        l.add_attachment(LineAttachment::Highlight('^', 0..3, Some("Its really bad".into())));
        l.add_attachment(LineAttachment::Highlight('-', 4..7, Some("Its just awful".into())));
        l.add_attachment(LineAttachment::Highlight('-', 10..15, Some("How Terrible!".into())));
    });

    let second_line = SourceLine("for i in 0..10 { println(i) }".into(), 10, vec![]);

    let builder = ErrorBuilder::new().also_mut(|x| {
        x.with_source_line(line).with_source_line(second_line);
    });

    println!("{}", builder.result())
}

#[test]
fn builder_draws_highlights_and_gaps() {
    let line = SourceLine("let tmp = 4 + 5;".into(), 4, vec![]).also_mut(|l| {
        l.add_attachment(LineAttachment::Highlight('^', 0..3, Some("Its really bad".into())));
        l.add_attachment(LineAttachment::Highlight('-', 4..7, Some("Its just awful".into())));
        l.add_attachment(LineAttachment::Highlight('-', 10..15, Some("How Terrible!".into())));
    });
    let second_line = SourceLine("for i in 0..10 { println(i) }".into(), 10, vec![]);
    let mut builder = ErrorBuilder::new();
    builder.with_source_line(line).with_source_line(second_line);
    let expected = "[Compile Error] Error in compilation\n".to_string()
        + "  4 | let tmp = 4 + 5;\n"
        + "    | ^^^ ---   ----- How Terrible!\n"
        + "    | |   ⌊ Its just awful\n"
        + "    | ⌊ Its really bad\n"
        + "    | \n"
        + "...\n"
        + " 10 | for i in 0..10 { println(i) }\n"
        + "    | \n";
    assert_eq!(builder.result(), expected);
}

#[test]
fn builder_header_and_neighbouring_lines() {
    let mut builder = ErrorBuilder::new();
    builder
        .with_type("Type Error".to_string())
        .with_summary("mismatched types".to_string())
        .with_source_line(SourceLine::new("b".to_string(), 2))
        .with_source_line(SourceLine::new("a".to_string(), 1))
        .with_source_line(SourceLine::new("dropped".to_string(), 2));
    assert_eq!(builder.result(), "[Type Error] mismatched types\n 1 | a\n   | \n 2 | b\n   | \n");
}

#[test]
fn builder_label_without_reason_pads_line() {
    let mut line = SourceLine::new("abc".to_string(), 7);
    line.add_attachment(LineAttachment::Highlight('~', 1..2, None));
    let mut builder = ErrorBuilder::new();
    builder.with_source_line(line);
    assert_eq!(builder.result(), "[Compile Error] Error in compilation\n 7 | abc\n   |  ~ \n   | \n");
}

#[test]
fn builder_empty_report() {
    assert_eq!(ErrorBuilder::new().result(), "[Compile Error] Error in compilation\n");
}

#[test]
fn attachments_join_the_first_group() {
    let mut line = SourceLine::new("x".to_string(), 1);
    line.add_attachment(LineAttachment::Highlight('^', 0..1, None));
    line.add_attachment(LineAttachment::Highlight('^', 0..1, None));
    assert_eq!(line.2.len(), 1);
    assert_eq!(line.2[0].len(), 2);
}

#[test]
fn highlights_share_one_group_in_order() {
    let mut line = SourceLine::new("abcdef".to_string(), 3);
    line.add_attachment(LineAttachment::Highlight('^', 0..1, None));
    line.add_attachment(LineAttachment::Highlight('-', 2..3, None));
    line.add_attachment(LineAttachment::Highlight('~', 4..6, None));
    assert_eq!(line.2.len(), 1);
    let chars: Vec<char> = line.2[0].iter().map(|a| match a { LineAttachment::Highlight(c, _, _) => *c }).collect();
    assert_eq!(chars, vec!['^', '-', '~']);
}

#[test]
fn line_order_does_not_matter() {
    let mut b1 = ErrorBuilder::new();
    b1.with_source_line(SourceLine::new("first".to_string(), 4)).with_source_line(SourceLine::new("second".to_string(), 10));
    let mut b2 = ErrorBuilder::new();
    b2.with_source_line(SourceLine::new("second".to_string(), 10)).with_source_line(SourceLine::new("first".to_string(), 4));
    assert_eq!(b1.result(), b2.result());
}

#[test]
fn builder_columns_count_bytes() {
    let mut line = SourceLine::new("ab".to_string(), 1);
    line.add_attachment(LineAttachment::Highlight('é', 0..1, Some("x".to_string())));
    line.add_attachment(LineAttachment::Highlight('^', 2..3, None));
    let mut builder = ErrorBuilder::new();
    builder.with_source_line(line);
    assert_eq!(
        builder.result(),
        "[Compile Error] Error in compilation\n 1 | ab\n   | é^ \n   | ⌊ x\n   | \n"
    );
}
