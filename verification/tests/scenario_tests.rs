use intl_messageformat_parser_rs::ast::{
    AstElement, Error, ErrorKind, PluralOrSelectOption, PluralOrSelectOptions, PluralType, Position,
    Span,
};
use intl_messageformat_parser_rs::parser::{Parser, ParserOptions};

fn at(start: usize, end: usize) -> Span {
    Span::new(Position::new(start, 1, start + 1), Position::new(end, 1, end + 1))
}

fn text(value: &str, start: usize, end: usize) -> AstElement<'static> {
    AstElement::Literal { value: value.to_string(), span: at(start, end) }
}

#[test]
fn second_of_two_equal_plural_selectors_is_the_error() {
    let message = "You have {count, plural, one {# hot dog} one {# hamburger} other {# snacks}} in your lunch bag.";
    assert_eq!(
        Parser::new(message, None).parse(),
        Err(Error {
            kind: ErrorKind::DuplicatePluralArgumentSelector,
            message: message.to_string(),
            span: at(41, 44)
        })
    );
}

#[test]
fn plural_with_offset_on_one_line() {
    assert_eq!(
        Parser::new(
            "{itemCount, plural, offset: 2 =0 {no items} one {1 item} other {{itemCount} items}}",
            None
        )
        .parse(),
        Ok(vec![AstElement::Plural {
            name: "itemCount",
            plural_type: PluralType::Cardinal,
            span: at(0, 83),
            offset: 2,
            options: PluralOrSelectOptions(vec![
                ("=0", PluralOrSelectOption { value: vec![text("no items", 34, 42)], span: at(33, 43) }),
                ("one", PluralOrSelectOption { value: vec![text("1 item", 49, 55)], span: at(48, 56) }),
                (
                    "other",
                    PluralOrSelectOption {
                        value: vec![
                            AstElement::Argument { name: "itemCount", span: at(64, 75) },
                            text(" items", 75, 81),
                        ],
                        span: at(63, 82)
                    }
                ),
            ])
        }])
    );
}

#[test]
fn number_sign_in_plural_option() {
    assert_eq!(
        Parser::new(
            "You {count, plural, one {worked for # hour} other {worked for # hours}} today.",
            None
        )
        .parse(),
        Ok(vec![
            text("You ", 0, 4),
            AstElement::Plural {
                name: "count",
                plural_type: PluralType::Cardinal,
                span: at(4, 71),
                offset: 0,
                options: PluralOrSelectOptions(vec![
                    (
                        "one",
                        PluralOrSelectOption {
                            value: vec![
                                text("worked for ", 25, 36),
                                AstElement::Pound(at(36, 37)),
                                text(" hour", 37, 42),
                            ],
                            span: at(24, 43)
                        }
                    ),
                    (
                        "other",
                        PluralOrSelectOption {
                            value: vec![
                                text("worked for ", 51, 62),
                                AstElement::Pound(at(62, 63)),
                                text(" hours", 63, 69),
                            ],
                            span: at(50, 70)
                        }
                    ),
                ])
            },
            text(" today.", 71, 78),
        ])
    );
}

#[test]
fn number_sign_outside_plural_is_text() {
    assert_eq!(Parser::new("# of {n}", None).parse(), Ok(vec![
        text("# of ", 0, 5),
        AstElement::Argument { name: "n", span: at(5, 8) },
    ]));
}

#[test]
fn default_options_parse_tags() {
    let options = ParserOptions::default();
    assert_eq!(options, ParserOptions { should_ignore_tag: false });
    assert_eq!(
        Parser::new("<a>hi</a>", Some(&options)).parse(),
        Ok(vec![AstElement::Tag { name: "a", span: at(0, 9), children: vec![text("hi", 3, 5)] }])
    );
}

#[test]
fn every_message_of_text_is_accepted() {
    assert!(Parser::accepts(""));
    assert!(Parser::accepts("a {b} c"));
}

#[test]
fn columns_count_scalar_values() {
    assert_eq!(
        Parser::new("é\n中{文}", None).parse(),
        Ok(vec![
            AstElement::Literal {
                value: "é\n中".to_string(),
                span: Span::new(Position::new(0, 1, 1), Position::new(6, 2, 2))
            },
            AstElement::Argument {
                name: "文",
                span: Span::new(Position::new(6, 2, 2), Position::new(11, 2, 5))
            },
        ])
    );
}

#[test]
fn copy_of_a_tree_is_equal_to_it() {
    let message = "a {n, plural, offset:1 one {<b>#</b>} other {{d, date, ::yy} {x, number, ::a/b c}}}";
    let ast = Parser::new(message, None).parse().expect(message);
    assert_eq!(ast.len(), 2);
    let copy = ast.clone();
    assert_eq!(copy, ast);
    match &ast[1] {
        AstElement::Plural { options, .. } => {
            assert_eq!(options.clone(), *options);
            assert_eq!(options.0[1].1.clone(), options.0[1].1);
        }
        _ => panic!("no plural in {:?}", message),
    }
}

#[test]
fn parser_and_tree_are_at_the_root_of_the_crate() {
    let ast: intl_messageformat_parser_rs::Ast =
        intl_messageformat_parser_rs::Parser::new("a", None).parse().expect("a");
    assert_eq!(
        ast,
        vec![intl_messageformat_parser_rs::AstElement::Literal {
            value: "a".to_string(),
            span: intl_messageformat_parser_rs::Span::new(
                intl_messageformat_parser_rs::Position::new(0, 1, 1),
                intl_messageformat_parser_rs::Position::new(1, 1, 2)
            )
        }]
    );
}
