use intl_messageformat_parser_rs::ast::{
    AstElement, DateTimeArgStyle, Error, ErrorKind, NumberArgStyle, PluralOrSelectOption,
    PluralOrSelectOptions, PluralType, Position, Span,
};
use intl_messageformat_parser_rs::parser::Parser;

fn line_span(start: usize, end: usize) -> Span {
    Span::new(Position::new(start, 1, start + 1), Position::new(end, 1, end + 1))
}

fn failure(message: &str, kind: ErrorKind, start: usize, end: usize) {
    assert_eq!(
        Parser::new(message, None).parse(),
        Err(Error { kind, message: message.to_string(), span: line_span(start, end) })
    );
}

#[test]
fn empty_message_has_no_element() {
    assert_eq!(Parser::new("", None).parse(), Ok(vec![]));
}

#[test]
fn closing_brace_after_open_is_expected() {
    failure("{", ErrorKind::ExpectArgumentClosingBrace, 0, 1);
}

#[test]
fn closing_brace_after_comma_is_expected() {
    failure("{a, ", ErrorKind::ExpectArgumentClosingBrace, 0, 4);
}

#[test]
fn malformed_argument_without_name() {
    failure("{,}", ErrorKind::MalformedArgument, 0, 1);
}

#[test]
fn date_skeleton_is_expected() {
    failure("{0, date, ::}", ErrorKind::ExpectDateTimeSkeleton, 0, 13);
}

#[test]
fn time_skeleton_is_expected() {
    failure("{0, time, ::  }", ErrorKind::ExpectDateTimeSkeleton, 0, 15);
}

#[test]
fn time_skeleton_and_style() {
    assert_eq!(
        Parser::new("{t, time, short}{t, time, ::hm }", None).parse(),
        Ok(vec![
            AstElement::Time {
                name: "t",
                span: line_span(0, 16),
                style: Some(DateTimeArgStyle::Style("short"))
            },
            AstElement::Time {
                name: "t",
                span: line_span(16, 32),
                style: Some(DateTimeArgStyle::Skeleton(
                    intl_messageformat_parser_rs::ast::DateTimeSkeleton {
                        pattern: "hm",
                        span: line_span(26, 31)
                    }
                ))
            },
        ])
    );
}

#[test]
fn unclosed_quote_in_style_spans_from_the_apostrophe() {
    failure("{0, number, a'bc}", ErrorKind::UnclosedQuoteInArgumentStyle, 13, 17);
}

#[test]
fn braces_in_style_are_counted() {
    assert_eq!(
        Parser::new("{0, number, a{b}c}d", None).parse(),
        Ok(vec![
            AstElement::Number {
                name: "0",
                span: line_span(0, 18),
                style: Some(NumberArgStyle::Style("a{b}c"))
            },
            AstElement::Literal { value: "d".to_string(), span: line_span(18, 19) },
        ])
    );
}

#[test]
fn quoted_brace_in_style_is_passed_over() {
    assert_eq!(
        Parser::new("{0, number, a'}'c  }", None).parse(),
        Ok(vec![AstElement::Number {
            name: "0",
            span: line_span(0, 20),
            style: Some(NumberArgStyle::Style("a'}'c"))
        }])
    );
}

#[test]
fn select_options_are_expected() {
    failure("{0, select}", ErrorKind::ExpectSelectArgumentOptions, 10, 10);
}

#[test]
fn plural_options_are_expected() {
    failure("{0, plural }", ErrorKind::ExpectSelectArgumentOptions, 10, 10);
}

#[test]
fn offset_value_is_expected_without_colon() {
    failure("{0, plural, offset}", ErrorKind::ExpectPluralArgumentOffsetValue, 18, 18);
}

#[test]
fn offset_value_is_expected_at_end_of_message() {
    failure("{0, plural, offset: ", ErrorKind::ExpectPluralArgumentOffsetValue, 20, 20);
}

#[test]
fn offset_value_is_expected_behind_sign_at_end_of_message() {
    failure("{0, plural, offset:-", ErrorKind::ExpectPluralArgumentOffsetValue, 19, 20);
}

#[test]
fn offset_value_is_invalid() {
    failure("{0, plural, offset: x}", ErrorKind::InvalidPluralArgumentOffsetValue, 20, 20);
}

#[test]
fn offset_value_beyond_64_bits_is_invalid() {
    failure(
        "{0, plural, offset:9223372036854775808 one {a}}",
        ErrorKind::InvalidPluralArgumentOffsetValue,
        19,
        38,
    );
}

#[test]
fn offset_value_at_end_of_message_is_a_number() {
    failure("{0, plural, offset:1", ErrorKind::ExpectPluralArgumentSelector, 20, 20);
}

fn plural_with_offset(message: &'static str, offset: i64, end: usize, one: usize) {
    assert_eq!(
        Parser::new(message, None).parse(),
        Ok(vec![AstElement::Plural {
            name: "0",
            plural_type: PluralType::Cardinal,
            span: line_span(0, end),
            offset,
            options: PluralOrSelectOptions(vec![(
                "one",
                PluralOrSelectOption {
                    value: vec![AstElement::Literal {
                        value: "a".to_string(),
                        span: line_span(one + 5, one + 6)
                    }],
                    span: line_span(one + 4, one + 7)
                }
            )])
        }])
    );
}

#[test]
fn largest_offset_value() {
    plural_with_offset("{0, plural, offset:9223372036854775807 one {a}}", 9223372036854775807, 47, 39);
}

#[test]
fn negative_offset_value() {
    plural_with_offset("{0, plural, offset:-12 one {a}}", -12, 31, 23);
}

#[test]
fn signed_offset_value_with_zeros() {
    plural_with_offset("{0, plural, offset:+007 one {a}}", 7, 32, 24);
}

#[test]
fn offset_is_an_identifier_in_select() {
    assert_eq!(
        Parser::new("{0, select, offset {a}}", None).parse(),
        Ok(vec![AstElement::Select {
            name: "0",
            span: line_span(0, 23),
            options: PluralOrSelectOptions(vec![(
                "offset",
                PluralOrSelectOption {
                    value: vec![AstElement::Literal {
                        value: "a".to_string(),
                        span: line_span(20, 21)
                    }],
                    span: line_span(19, 22)
                }
            )])
        }])
    );
}

#[test]
fn selectordinal_is_ordinal() {
    assert_eq!(
        Parser::new("{0, selectordinal, =1 {#st}}", None).parse(),
        Ok(vec![AstElement::Plural {
            name: "0",
            plural_type: PluralType::Ordinal,
            span: line_span(0, 28),
            offset: 0,
            options: PluralOrSelectOptions(vec![(
                "=1",
                PluralOrSelectOption {
                    value: vec![
                        AstElement::Pound(line_span(23, 24)),
                        AstElement::Literal { value: "st".to_string(), span: line_span(24, 26) }
                    ],
                    span: line_span(22, 27)
                }
            )])
        }])
    );
}

#[test]
fn number_sign_is_text_in_select_within_plural() {
    assert_eq!(
        Parser::new("{n, plural, one {{g, select, m {#}}}}", None).parse(),
        Ok(vec![AstElement::Plural {
            name: "n",
            plural_type: PluralType::Cardinal,
            span: line_span(0, 37),
            offset: 0,
            options: PluralOrSelectOptions(vec![(
                "one",
                PluralOrSelectOption {
                    value: vec![AstElement::Select {
                        name: "g",
                        span: line_span(17, 35),
                        options: PluralOrSelectOptions(vec![(
                            "m",
                            PluralOrSelectOption {
                                value: vec![AstElement::Literal {
                                    value: "#".to_string(),
                                    span: line_span(32, 33)
                                }],
                                span: line_span(31, 34)
                            }
                        )])
                    }],
                    span: line_span(16, 36)
                }
            )])
        }])
    );
}

#[test]
fn select_selector_is_expected() {
    failure("{0, select, }", ErrorKind::ExpectSelectArgumentSelector, 12, 12);
}

#[test]
fn number_is_no_selector_in_select() {
    failure("{0, select, =1 {a}}", ErrorKind::ExpectSelectArgumentSelector, 12, 12);
}

#[test]
fn plural_selector_is_expected() {
    failure("{0, plural, }", ErrorKind::ExpectPluralArgumentSelector, 12, 12);
}

#[test]
fn plural_selector_number_is_expected() {
    failure("{0, plural, =", ErrorKind::ExpectPluralArgumentSelector, 13, 13);
}

#[test]
fn plural_selector_is_invalid() {
    failure("{0, plural, =x {#}}", ErrorKind::InvalidPluralArgumentSelector, 13, 13);
}

#[test]
fn select_fragment_is_expected() {
    failure("{0, select, apple}", ErrorKind::ExpectSelectArgumentSelectorFragment, 17, 17);
}

#[test]
fn plural_fragment_is_expected() {
    failure("{0, plural, one }", ErrorKind::ExpectPluralArgumentSelectorFragment, 16, 16);
}

#[test]
fn option_is_not_closed() {
    failure("{0, select, a {b", ErrorKind::ExpectArgumentClosingBrace, 14, 16);
}

#[test]
fn choice_is_not_closed() {
    failure("{0, select, a {b} ", ErrorKind::ExpectArgumentClosingBrace, 0, 18);
}

#[test]
fn duplicate_number_selectors() {
    failure(
        "{0, plural, =1 {a} =1 {b}}",
        ErrorKind::DuplicatePluralArgumentSelector,
        19,
        21,
    );
}

#[test]
fn other_clause_is_not_required() {
    assert_eq!(
        Parser::new("{0, select, a {}}", None).parse(),
        Ok(vec![AstElement::Select {
            name: "0",
            span: line_span(0, 17),
            options: PluralOrSelectOptions(vec![(
                "a",
                PluralOrSelectOption { value: vec![], span: line_span(14, 16) }
            )])
        }])
    );
}

#[test]
fn invalid_number_skeleton_with_empty_option_in_the_middle() {
    failure("{0, number, ::a//b}", ErrorKind::InvalidNumberSkeleton, 12, 18);
}

#[test]
fn skeleton_span_holds_whitespace_before_the_brace() {
    assert_eq!(
        Parser::new("{0, number, percent  }", None).parse(),
        Ok(vec![AstElement::Number {
            name: "0",
            span: line_span(0, 22),
            style: Some(NumberArgStyle::Style("percent"))
        }])
    );
}
