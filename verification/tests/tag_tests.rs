use intl_messageformat_parser_rs::ast::{
    AstElement, Error, ErrorKind, PluralOrSelectOption, PluralOrSelectOptions, PluralType, Position,
    Span,
};
use intl_messageformat_parser_rs::parser::{Parser, ParserOptions};

/// The span between two byte offsets of a message of ASCII on one line.
fn span(start: usize, end: usize) -> Span {
    Span::new(Position::new(start, 1, start + 1), Position::new(end, 1, end + 1))
}

fn literal(value: &str, start: usize, end: usize) -> AstElement<'static> {
    AstElement::Literal { value: value.to_string(), span: span(start, end) }
}

fn error(kind: ErrorKind, message: &str, start: usize, end: usize) -> Error {
    Error { kind, message: message.to_string(), span: span(start, end) }
}

#[test]
fn tag_with_literal() {
    assert_eq!(
        Parser::new("<a>hi</a>", None).parse(),
        Ok(vec![AstElement::Tag { name: "a", span: span(0, 9), children: vec![literal("hi", 3, 5)] }])
    );
}

#[test]
fn tag_is_text_where_tags_are_ignored() {
    let options = ParserOptions { should_ignore_tag: true };
    assert_eq!(
        Parser::new("<a>hi</a>", Some(&options)).parse(),
        Ok(vec![literal("<a>hi</a>", 0, 9)])
    );
}

#[test]
fn tags_are_parsed_where_options_say_so() {
    let options = ParserOptions { should_ignore_tag: false };
    assert_eq!(
        Parser::new("<a/>", Some(&options)).parse(),
        Ok(vec![AstElement::Tag { name: "a", span: span(0, 4), children: vec![] }])
    );
}

#[test]
fn self_closing_tag_with_whitespace() {
    assert_eq!(
        Parser::new("a<br />b", None).parse(),
        Ok(vec![
            literal("a", 0, 1),
            AstElement::Tag { name: "br", span: span(1, 7), children: vec![] },
            literal("b", 7, 8),
        ])
    );
}

#[test]
fn closing_tag_with_whitespace() {
    assert_eq!(
        Parser::new("<b-1 >x</b-1 >", None).parse(),
        Ok(vec![AstElement::Tag {
            name: "b-1",
            span: span(0, 14),
            children: vec![literal("x", 6, 7)]
        }])
    );
}

#[test]
fn nested_tags() {
    assert_eq!(
        Parser::new("<a><b>x</b>{y}</a>", None).parse(),
        Ok(vec![AstElement::Tag {
            name: "a",
            span: span(0, 18),
            children: vec![
                AstElement::Tag { name: "b", span: span(3, 11), children: vec![literal("x", 6, 7)] },
                AstElement::Argument { name: "y", span: span(11, 14) },
            ]
        }])
    );
}

#[test]
fn tag_name_with_unicode_scalar() {
    assert_eq!(
        Parser::new("<a\u{b7}é/>", None).parse(),
        Ok(vec![AstElement::Tag {
            name: "a\u{b7}é",
            span: Span::new(Position::new(0, 1, 1), Position::new(8, 1, 7)),
            children: vec![]
        }])
    );
}

#[test]
fn left_angle_before_other_text_is_literal() {
    assert_eq!(Parser::new("a < b <1> <A>", None).parse(), Ok(vec![literal("a < b <1> <A>", 0, 13)]));
}

#[test]
fn left_angle_at_end_is_literal() {
    assert_eq!(Parser::new("a <", None).parse(), Ok(vec![literal("a <", 0, 3)]));
}

#[test]
fn quoted_left_angle_is_literal() {
    assert_eq!(Parser::new("'<a>' b", None).parse(), Ok(vec![literal("<a> b", 0, 7)]));
}

#[test]
fn tag_in_plural_option_keeps_number_sign() {
    assert_eq!(
        Parser::new("{n, plural, other {<b>#</b>}}", None).parse(),
        Ok(vec![AstElement::Plural {
            name: "n",
            plural_type: PluralType::Cardinal,
            span: span(0, 29),
            offset: 0,
            options: PluralOrSelectOptions(vec![(
                "other",
                PluralOrSelectOption {
                    value: vec![AstElement::Tag {
                        name: "b",
                        span: span(19, 27),
                        children: vec![AstElement::Pound(span(22, 23))]
                    }],
                    span: span(18, 28)
                }
            )])
        }])
    );
}

#[test]
fn plural_in_tag_ends_at_closing_tag() {
    assert_eq!(
        Parser::new("<a>{n, select, x {y</a>}}", None).parse(),
        Err(error(ErrorKind::ExpectArgumentClosingBrace, "<a>{n, select, x {y</a>}}", 17, 19))
    );
}

#[test]
fn unmatched_closing_tag_at_top_level() {
    assert_eq!(
        Parser::new("a</b>", None).parse(),
        Err(error(ErrorKind::UnmatchedClosingTag, "a</b>", 1, 1))
    );
}

#[test]
fn unmatched_closing_tag_name() {
    assert_eq!(
        Parser::new("<a>x</b>", None).parse(),
        Err(error(ErrorKind::UnmatchedClosingTag, "<a>x</b>", 6, 7))
    );
}

#[test]
fn unclosed_tag() {
    assert_eq!(
        Parser::new("<a>foo", None).parse(),
        Err(error(ErrorKind::UnclosedTag, "<a>foo", 0, 6))
    );
}

#[test]
fn unclosed_tag_at_brace() {
    assert_eq!(
        Parser::new("{n, select, x {<a>foo}}", None).parse(),
        Err(error(ErrorKind::UnclosedTag, "{n, select, x {<a>foo}}", 15, 21))
    );
}

#[test]
fn invalid_tag_without_closing_angle() {
    assert_eq!(Parser::new("<a !>", None).parse(), Err(error(ErrorKind::InvalidTag, "<a !>", 0, 3)));
}

#[test]
fn invalid_closing_tag_without_name() {
    assert_eq!(
        Parser::new("<a>x</>", None).parse(),
        Err(error(ErrorKind::InvalidTag, "<a>x</>", 4, 6))
    );
}

#[test]
fn invalid_closing_tag_at_end_of_message() {
    assert_eq!(
        Parser::new("<a>x</", None).parse(),
        Err(error(ErrorKind::InvalidTag, "<a>x</", 4, 6))
    );
}

#[test]
fn invalid_closing_tag_without_closing_angle() {
    assert_eq!(
        Parser::new("<a>x</a !", None).parse(),
        Err(error(ErrorKind::InvalidTag, "<a>x</a !", 4, 8))
    );
}

#[test]
fn no_tag_error_where_tags_are_ignored() {
    let options = ParserOptions { should_ignore_tag: true };
    assert_eq!(Parser::new("<a>x</b> </c", Some(&options)).parse(), Ok(vec![literal("<a>x</b> </c", 0, 12)]));
}
