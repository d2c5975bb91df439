use intl_messageformat_parser_rs::ast::{Ast, AstElement, PluralOrSelectOptions, Span};
use intl_messageformat_parser_rs::parser::{Parser, ParserOptions};

fn span_of<'a>(element: &AstElement<'a>) -> Span {
    match element {
        AstElement::Literal { span, .. } => *span,
        AstElement::Argument { span, .. } => *span,
        AstElement::Number { span, .. } => *span,
        AstElement::Date { span, .. } => *span,
        AstElement::Time { span, .. } => *span,
        AstElement::Select { span, .. } => *span,
        AstElement::Plural { span, .. } => *span,
        AstElement::Pound(span) => *span,
        AstElement::Tag { span, .. } => *span,
    }
}

fn check_position(message: &str, offset: usize, line: usize) {
    assert!(message.is_char_boundary(offset), "{} in {:?}", offset, message);
    let feeds = message.as_bytes()[..offset].iter().filter(|b| **b == b'\n').count();
    assert_eq!(line, 1 + feeds, "{} in {:?}", offset, message);
}

fn check_options(message: &str, options: &PluralOrSelectOptions, tags: &mut usize) {
    for (k, (selector, option)) in options.0.iter().enumerate() {
        for (other, _) in &options.0[..k] {
            assert!(other != selector, "{:?}", message);
        }
        check_position(message, option.span.start.offset, option.span.start.line);
        check_position(message, option.span.end.offset, option.span.end.line);
        check_siblings(message, &option.value, tags);
    }
}

/// Every span fits the message, siblings follow each other without a gap,
/// selectors differ, and a literal without an apostrophe in its source has
/// that source as its value. Counts the tags.
fn check_siblings(message: &str, elements: &Ast, tags: &mut usize) {
    for (k, element) in elements.iter().enumerate() {
        let span = span_of(element);
        assert!(span.start.offset < span.end.offset, "{:?}", message);
        check_position(message, span.start.offset, span.start.line);
        check_position(message, span.end.offset, span.end.line);
        if k > 0 {
            assert_eq!(span_of(&elements[k - 1]).end, span.start, "{:?}", message);
        }
        let source = &message[span.start.offset..span.end.offset];
        match element {
            AstElement::Literal { value, .. } => {
                if !source.contains('\'') {
                    assert_eq!(value, source);
                }
            }
            AstElement::Select { options, .. } => check_options(message, options, tags),
            AstElement::Plural { options, .. } => check_options(message, options, tags),
            AstElement::Tag { name, children, .. } => {
                *tags += 1;
                assert!(source.starts_with(&format!("<{}", name)), "{:?}", message);
                let closing = format!("</{}", name);
                assert!(
                    source.ends_with("/>")
                        || source.trim_end_matches('>').trim_end().ends_with(&closing),
                    "{:?}",
                    message
                );
                check_siblings(message, children, tags);
            }
            _ => {}
        }
    }
}

const MESSAGES: [&str; 12] = [
    "",
    "a",
    "中文 {b} \n'{'c''d",
    "You have {count, plural, offset: 1 =0 {no} one {# dog\n} other {{count} <b>dogs</b>}} ok",
    "{g, select, m {He} f {She} other {{n, plural, one {'#'} other {#}}}}\n\n.",
    "<a>x<b/>y{n, number, ::currency/GBP .00}</a><c ></c >",
    "{d, date, ::yyyy 'at' MM}{t, time, short}{n, number}",
    "a < b <1> <A> <",
    "{a}{b}{c}",
    "\u{a0}{ a\u{a0}}é<é",
    "{n, selectordinal, one {#st} two {#nd} =3 {#rd} other {#th}}",
    "'{''}' '<a>' ''",
];

#[test]
fn spans_cover_the_message() {
    for message in MESSAGES {
        let ast = Parser::new(message, None).parse().expect(message);
        if ast.is_empty() {
            assert_eq!(message.len(), 0);
        } else {
            assert_eq!(span_of(&ast[0]).start.offset, 0, "{:?}", message);
            assert_eq!(span_of(&ast[ast.len() - 1]).end.offset, message.len(), "{:?}", message);
        }
        let mut tags = 0;
        check_siblings(message, &ast, &mut tags);
    }
}

#[test]
fn no_tag_where_tags_are_ignored() {
    let options = ParserOptions { should_ignore_tag: true };
    for message in MESSAGES {
        let ast = Parser::new(message, Some(&options)).parse().expect(message);
        let mut tags = 0;
        check_siblings(message, &ast, &mut tags);
        assert_eq!(tags, 0, "{:?}", message);
    }
}

#[test]
fn tags_are_counted_where_they_are_parsed() {
    let message = "<a>x<b/>y{n, number, ::currency/GBP .00}</a><c ></c >";
    let ast = Parser::new(message, None).parse().expect(message);
    let mut tags = 0;
    check_siblings(message, &ast, &mut tags);
    assert_eq!(tags, 3);
}

#[test]
fn error_spans_lie_in_the_message() {
    for message in [
        "{", "{}", "{a", "{a,", "{a, b}", "{a, number, ", "{a, number, '", "{a, plural, =",
        "{a, plural, one {", "{a, select, x {y} x {z}}", "<a>", "</a>", "<a></b>", "中{文",
        "\n\n{a, date, ::}", "{a, plural, offset:x}",
    ] {
        let error = Parser::new(message, None).parse().expect_err(message);
        assert_eq!(error.message, message);
        assert!(error.span.start.offset <= error.span.end.offset, "{:?}", message);
        assert!(error.span.end.offset <= message.len(), "{:?}", message);
        check_position(message, error.span.start.offset, error.span.start.line);
        check_position(message, error.span.end.offset, error.span.end.line);
    }
}

#[test]
fn doubled_apostrophe_is_one_apostrophe() {
    for (message, value) in [
        ("''", "'"),
        ("a''b", "a'b"),
        ("''''", "''"),
        ("'{''}'", "{'}"),
        ("'{'''", "{'"),
        ("it''s '{' ''", "it's { '"),
    ] {
        let ast = Parser::new(message, None).parse().expect(message);
        match &ast[..] {
            [AstElement::Literal { value: found, .. }] => assert_eq!(found, value),
            _ => panic!("{:?}", message),
        }
    }
}

#[test]
fn parser_is_at_the_end_after_a_parse() {
    let message = "a {b} c";
    let mut parser = Parser::new(message, None);
    let first = parser.parse();
    assert_eq!(first.map(|ast| ast.len()), Ok(3));
}
