use intl_messageformat_parser_rs::ast::{
    AstElement, DateTimeArgStyle, DateTimeSkeleton, Error, ErrorKind, NumberArgStyle,
    NumberSkeleton, NumberSkeletonToken, PluralOrSelectOption, PluralOrSelectOptions, PluralType,
    Position, Span,
};
use intl_messageformat_parser_rs::parser::Parser;


#[test]
fn trivial_1() {
    assert_eq!(
        Parser::new("a", None).parse(),
        Ok(vec![AstElement::Literal {
            value: "a".to_string(),
            span: Span::new(Position::new(0, 1, 1), Position::new(1, 1, 2))
        }])
    );
}

#[test]
fn trivial_2() {
    assert_eq!(
        Parser::new("中文", None).parse(),
        Ok(vec![AstElement::Literal {
            value: "中文".to_string(),
            span: Span::new(Position::new(0, 1, 1), Position::new(6, 1, 3))
        }])
    );
}

#[test]
fn basic_argument_1() {
    assert_eq!(
        Parser::new("{a}", None).parse(),
        Ok(vec![AstElement::Argument {
            name: "a",
            span: Span::new(Position::new(0, 1, 1), Position::new(3, 1, 4))
        }])
    );
}

#[test]
fn basic_argument_2() {
    assert_eq!(
        Parser::new("a {b} \nc", None).parse(),
        Ok(vec![
            AstElement::Literal {
                value: "a ".to_string(),
                span: Span::new(Position::new(0, 1, 1), Position::new(2, 1, 3))
            },
            AstElement::Argument {
                name: "b",
                span: Span::new(Position::new(2, 1, 3), Position::new(5, 1, 6))
            },
            AstElement::Literal {
                value: " \nc".to_string(),
                span: Span::new(Position::new(5, 1, 6), Position::new(8, 2, 2))
            },
        ])
    );
}

#[test]
fn unescaped_string_literal_1() {
    assert_eq!(
        Parser::new("}", None).parse(),
        Ok(vec![AstElement::Literal {
            value: "}".to_string(),
            span: Span::new(Position::new(0, 1, 1), Position::new(1, 1, 2))
        }])
    )
}

#[test]
fn double_apostrophes_1() {
    assert_eq!(
        Parser::new("a''b", None).parse(),
        Ok(vec![AstElement::Literal {
            value: "a'b".to_string(),
            span: Span::new(Position::new(0, 1, 1), Position::new(4, 1, 5))
        }])
    )
}

#[test]
fn quoted_string_1() {
    assert_eq!(
        Parser::new("'{a''b}'", None).parse(),
        Ok(vec![AstElement::Literal {
            value: "{a'b}".to_string(),
            span: Span::new(Position::new(0, 1, 1), Position::new(8, 1, 9))
        }])
    )
}

#[test]
fn quoted_string_2() {
    assert_eq!(
        Parser::new("'}a''b{'", None).parse(),
        Ok(vec![AstElement::Literal {
            value: "}a'b{".to_string(),
            span: Span::new(Position::new(0, 1, 1), Position::new(8, 1, 9))
        }])
    )
}

#[test]
fn quoted_string_3() {
    assert_eq!(
        Parser::new("aaa'{'", None).parse(),
        Ok(vec![AstElement::Literal {
            value: "aaa{".to_string(),
            span: Span::new(Position::new(0, 1, 1), Position::new(6, 1, 7))
        }])
    )
}

#[test]
fn quoted_string_4() {
    assert_eq!(
        Parser::new("aaa'}'", None).parse(),
        Ok(vec![AstElement::Literal {
            value: "aaa}".to_string(),
            span: Span::new(Position::new(0, 1, 1), Position::new(6, 1, 7))
        }])
    )
}

#[test]
fn not_quoted_string_1() {
    assert_eq!(
        Parser::new("'aa''b'", None).parse(),
        Ok(vec![AstElement::Literal {
            value: "'aa'b'".to_string(),
            span: Span::new(Position::new(0, 1, 1), Position::new(7, 1, 8))
        }])
    )
}

#[test]
fn not_quoted_string_2() {
    assert_eq!(
        Parser::new("I don't know", None).parse(),
        Ok(vec![AstElement::Literal {
            value: "I don't know".to_string(),
            span: Span::new(Position::new(0, 1, 1), Position::new(12, 1, 13))
        }])
    )
}

/// Substring starting at th apostrophe are all escaped because the quote did not close
#[test]
fn unclosed_quoted_string_1() {
    assert_eq!(
        Parser::new("a '{a{ {}{}{} ''bb", None).parse(),
        Ok(vec![AstElement::Literal {
            value: "a {a{ {}{}{} 'bb".to_string(),
            span: Span::new(Position::new(0, 1, 1), Position::new(18, 1, 19))
        }])
    )
}

/// The apostrophe here does not start a quote because it is not followed by `{` or `}`,
/// so the `{}` is invalid syntax.
#[test]
fn unclosed_quoted_string_2() {
    assert_eq!(
        Parser::new("a 'a {}{}", None).parse(),
        Err(Error {
            kind: ErrorKind::EmptyArgument,
            message: "a 'a {}{}".to_string(),
            span: Span::new(Position::new(5, 1, 6), Position::new(7, 1, 8))
        })
    );
}

/// The last apostrophe ends the escaping, therefore the last `{}` is invalid syntax.
#[test]
fn unclosed_quoted_string_3() {
    assert_eq!(
        Parser::new("a '{a{ {}{}{}}}''' \n {}", None).parse(),
        Err(Error {
            kind: ErrorKind::EmptyArgument,
            message: "a '{a{ {}{}{}}}''' \n {}".to_string(),
            span: Span::new(Position::new(21, 2, 2), Position::new(23, 2, 4))
        })
    );
}

#[test]
fn unclosed_quoted_string_4() {
    assert_eq!(
        Parser::new("You have '{count'", None).parse(),
        Ok(vec![AstElement::Literal {
            value: "You have {count".to_string(),
            span: Span::new(Position::new(0, 1, 1), Position::new(17, 1, 18))
        }])
    )
}

#[test]
fn unclosed_quoted_string_5() {
    assert_eq!(
        Parser::new("You have '{count", None).parse(),
        Ok(vec![AstElement::Literal {
            value: "You have {count".to_string(),
            span: Span::new(Position::new(0, 1, 1), Position::new(16, 1, 17))
        }])
    )
}

#[test]
fn unclosed_quoted_string_6() {
    assert_eq!(
        Parser::new("You have '{count}", None).parse(),
        Ok(vec![AstElement::Literal {
            value: "You have {count}".to_string(),
            span: Span::new(Position::new(0, 1, 1), Position::new(17, 1, 18))
        }])
    )
}

// `#` are escaped in the plural argument.
#[test]
fn quoted_pound_sign_1() {
    assert_eq!(
        Parser::new("You {count, plural, one {worked for '#' hour} other {worked for '#' hours}} today.", None).parse(),
        Ok(vec![
            AstElement::Literal {
                value: "You ".to_string(),
                span: Span::new(Position::new(0, 1, 1), Position::new(4, 1, 5))
            },
            AstElement::Plural {
                name: "count",
                plural_type: PluralType::Cardinal,
                span: Span::new(Position::new(4, 1, 5), Position::new(75, 1, 76)),
                offset: 0,
                options: PluralOrSelectOptions(vec![
                    ("one", PluralOrSelectOption {
                        value: vec![
                            AstElement::Literal {
                                value: "worked for # hour".to_string(),
                                span: Span::new(Position::new(25, 1, 26), Position::new(44, 1, 45))
                            },
                        ],
                        span: Span::new(Position::new(24, 1, 25), Position::new(45, 1, 46)),
                    }),
                    ("other", PluralOrSelectOption {
                        value: vec![
                            AstElement::Literal {
                                value: "worked for # hours".to_string(),
                                span: Span::new(Position::new(53, 1, 54), Position::new(73, 1, 74))
                            },
                        ],
                        span: Span::new(Position::new(52, 1, 53), Position::new(74, 1, 75))
                    })
                ])
            },
            AstElement::Literal {
                value: " today.".to_string(),
                span: Span::new(Position::new(75, 1, 76), Position::new(82, 1, 83))
            }
        ])
    )
}

#[test]
fn quoted_pound_sign_2() {
    // '# hour} other {worked for ' is quoted.
    assert_eq!(
        Parser::new(
            "You {count, plural, one {worked for '# hour} other {worked for '# hours}} today.", None
        )
        .parse(),
        Ok(vec![
            AstElement::Literal {
                value: "You ".to_string(),
                span: Span::new(Position::new(0, 1, 1), Position::new(4, 1, 5)),
            },
            AstElement::Plural {
                name: "count",
                plural_type: PluralType::Cardinal,
                span: Span::new(Position::new(4, 1, 5), Position::new(73, 1, 74)),
                offset: 0,
                options: PluralOrSelectOptions(vec![(
                    "one",
                    PluralOrSelectOption {
                        value: vec![
                            AstElement::Literal {
                                value: "worked for # hour} other {worked for ".to_string(),
                                span: Span::new(
                                    Position::new(25, 1, 26),
                                    Position::new(64, 1, 65)
                                ),
                            },
                            AstElement::Pound(Span::new(
                                Position::new(64, 1, 65),
                                Position::new(65, 1, 66)
                            ),),
                            AstElement::Literal {
                                value: " hours".to_string(),
                                span: Span::new(
                                    Position::new(65, 1, 66),
                                    Position::new(71, 1, 72)
                                ),
                            },
                        ],
                        span: Span::new(Position::new(24, 1, 25), Position::new(72, 1, 73)),
                    },
                )]),
            },
            AstElement::Literal {
                value: " today.".to_string(),
                span: Span::new(Position::new(73, 1, 74), Position::new(80, 1, 81)),
            },
        ])
    )
}

#[test]
fn simple_argument_1() {
    assert_eq!(
        Parser::new("My name is {0}", None).parse(),
        Ok(vec![
            AstElement::Literal {
                value: "My name is ".to_string(),
                span: Span::new(Position::new(0, 1, 1), Position::new(11, 1, 12))
            },
            AstElement::Argument {
                name: "0",
                span: Span::new(Position::new(11, 1, 12), Position::new(14, 1, 15))
            }
        ])
    )
}

#[test]
fn simple_argument_2() {
    assert_eq!(
        Parser::new("My name is { name }", None).parse(),
        Ok(vec![
            AstElement::Literal {
                value: "My name is ".to_string(),
                span: Span::new(Position::new(0, 1, 1), Position::new(11, 1, 12))
            },
            AstElement::Argument {
                name: "name",
                span: Span::new(Position::new(11, 1, 12), Position::new(19, 1, 20))
            }
        ])
    )
}

#[test]
fn empty_argument_1() {
    assert_eq!(
        Parser::new("My name is { }", None).parse(),
        Err(Error {
            kind: ErrorKind::EmptyArgument,
            message: "My name is { }".to_string(),
            span: Span::new(Position::new(11, 1, 12), Position::new(14, 1, 15))
        })
    )
}

#[test]
fn empty_argument_2() {
    assert_eq!(
        Parser::new("My name is {\n}", None).parse(),
        Err(Error {
            kind: ErrorKind::EmptyArgument,
            message: "My name is {\n}".to_string(),
            span: Span::new(Position::new(11, 1, 12), Position::new(14, 2, 2))
        })
    )
}

#[test]
fn malformed_argument_1() {
    assert_eq!(
        Parser::new("My name is {0!}", None).parse(),
        Err(Error {
            kind: ErrorKind::MalformedArgument,
            message: "My name is {0!}".to_string(),
            span: Span::new(Position::new(11, 1, 12), Position::new(13, 1, 14))
        })
    )
}

#[test]
fn unclosed_argument_1() {
    assert_eq!(
        Parser::new("My name is { 0", None).parse(),
        Err(Error {
            kind: ErrorKind::ExpectArgumentClosingBrace,
            message: "My name is { 0".to_string(),
            span: Span::new(Position::new(11, 1, 12), Position::new(14, 1, 15))
        })
    )
}

#[test]
fn unclosed_argument_2() {
    assert_eq!(
        Parser::new("My name is { ", None).parse(),
        Err(Error {
            kind: ErrorKind::ExpectArgumentClosingBrace,
            message: "My name is { ".to_string(),
            span: Span::new(Position::new(11, 1, 12), Position::new(13, 1, 14))
        })
    )
}

#[test]
fn simple_number_arg_1() {
    assert_eq!(
        Parser::new("I have {numCats, number} cats.", None).parse(),
        Ok(vec![
            AstElement::Literal {
                value: "I have ".to_string(),
                span: Span::new(Position::new(0, 1, 1), Position::new(7, 1, 8))
            },
            AstElement::Number {
                name: "numCats",
                span: Span::new(Position::new(7, 1, 8), Position::new(24, 1, 25)),
                style: None
            },
            AstElement::Literal {
                value: " cats.".to_string(),
                span: Span::new(Position::new(24, 1, 25), Position::new(30, 1, 31))
            },
        ])
    )
}

#[test]
fn simple_date_and_time_arg_1() {
    assert_eq!(
        Parser::new("Your meeting is scheduled for the {dateVal, date} at {timeVal, time}", None)
            .parse(),
        Ok(vec![
            AstElement::Literal {
                value: "Your meeting is scheduled for the ".to_string(),
                span: Span::new(Position::new(0, 1, 1), Position::new(34, 1, 35))
            },
            AstElement::Date {
                name: "dateVal",
                span: Span::new(Position::new(34, 1, 35), Position::new(49, 1, 50)),
                style: None
            },
            AstElement::Literal {
                value: " at ".to_string(),
                span: Span::new(Position::new(49, 1, 50), Position::new(53, 1, 54))
            },
            AstElement::Time {
                name: "timeVal",
                span: Span::new(Position::new(53, 1, 54), Position::new(68, 1, 69)),
                style: None
            },
        ])
    )
}

#[test]
fn invalid_arg_format_1() {
    assert_eq!(
        Parser::new("My name is {0, foo}", None).parse(),
        Err(Error {
            kind: ErrorKind::InvalidArgumentType,
            message: "My name is {0, foo}".to_string(),
            span: Span::new(Position::new(15, 1, 16), Position::new(18, 1, 19))
        })
    )
}

#[test]
fn expect_arg_format_1() {
    assert_eq!(
        Parser::new("My name is {0, }", None).parse(),
        Err(Error {
            kind: ErrorKind::ExpectArgumentType,
            message: "My name is {0, }".to_string(),
            span: Span::new(Position::new(15, 1, 16), Position::new(15, 1, 16))
        })
    )
}

#[test]
fn unclosed_number_arg_1() {
    assert_eq!(
        Parser::new("{0, number", None).parse(),
        Err(Error {
            kind: ErrorKind::ExpectArgumentClosingBrace,
            message: "{0, number".to_string(),
            span: Span::new(Position::new(0, 1, 1), Position::new(10, 1, 11))
        })
    )
}

#[test]
fn unclosed_number_arg_2() {
    assert_eq!(
        Parser::new("{0, number, percent", None).parse(),
        Err(Error {
            kind: ErrorKind::ExpectArgumentClosingBrace,
            message: "{0, number, percent".to_string(),
            span: Span::new(Position::new(0, 1, 1), Position::new(19, 1, 20))
        })
    )
}

#[test]
fn unclosed_number_arg_3() {
    assert_eq!(
        Parser::new("{0, number, ::percent", None).parse(),
        Err(Error {
            kind: ErrorKind::ExpectArgumentClosingBrace,
            message: "{0, number, ::percent".to_string(),
            span: Span::new(Position::new(0, 1, 1), Position::new(21, 1, 22))
        })
    )
}

#[test]
fn number_arg_style_1() {
    assert_eq!(
        Parser::new("{0, number, percent}", None).parse(),
        Ok(vec![AstElement::Number {
            name: "0",
            span: Span::new(Position::new(0, 1, 1), Position::new(20, 1, 21)),
            style: Some(NumberArgStyle::Style("percent"))
        }])
    )
}

#[test]
fn expect_number_arg_style_1() {
    assert_eq!(
        Parser::new("{0, number, }", None).parse(),
        Err(Error {
            kind: ErrorKind::ExpectArgumentStyle,
            message: "{0, number, }".to_string(),
            span: Span::new(Position::new(12, 1, 13), Position::new(12, 1, 13))
        })
    )
}

#[test]
fn number_arg_skeleton_1() {
    assert_eq!(
        Parser::new("{0, number, ::percent}", None).parse(),
        Ok(vec![AstElement::Number {
            name: "0",
            span: Span::new(Position::new(0, 1, 1), Position::new(22, 1, 23)),
            style: Some(NumberArgStyle::Skeleton(NumberSkeleton {
                tokens: vec![NumberSkeletonToken { stem: "percent", options: vec![] }],
                span: Span::new(Position::new(12, 1, 13), Position::new(21, 1, 22)),
            }))
        }])
    )
}

#[test]
fn number_arg_skeleton_2() {
    assert_eq!(
        Parser::new("{0, number, :: currency/GBP}", None).parse(),
        Ok(vec![AstElement::Number {
            name: "0",
            span: Span::new(Position::new(0, 1, 1), Position::new(28, 1, 29)),
            style: Some(NumberArgStyle::Skeleton(NumberSkeleton {
                tokens: vec![NumberSkeletonToken { stem: "currency", options: vec!["GBP"] }],
                span: Span::new(Position::new(12, 1, 13), Position::new(27, 1, 28)),
            }))
        }])
    )
}

#[test]
fn number_arg_skeleton_3() {
    assert_eq!(
        Parser::new("{0, number, ::currency/GBP compact-short}", None).parse(),
        Ok(vec![AstElement::Number {
            name: "0",
            span: Span::new(Position::new(0, 1, 1), Position::new(41, 1, 42)),
            style: Some(NumberArgStyle::Skeleton(NumberSkeleton {
                tokens: vec![
                    NumberSkeletonToken { stem: "currency", options: vec!["GBP"] },
                    NumberSkeletonToken { stem: "compact-short", options: vec![] }
                ],
                span: Span::new(Position::new(12, 1, 13), Position::new(40, 1, 41)),
            }))
        }])
    )
}

#[test]
fn expect_number_arg_skeleton_token_1() {
    assert_eq!(
        Parser::new("{0, number, ::}", None).parse(),
        Err(Error {
            kind: ErrorKind::ExpectNumberSkeleton,
            message: "{0, number, ::}".to_string(),
            span: Span::new(Position::new(12, 1, 13), Position::new(14, 1, 15))
        })
    )
}

#[test]
fn expect_number_arg_skeleton_token_option_1() {
    assert_eq!(
        Parser::new("{0, number, ::currency/}", None).parse(),
        Err(Error {
            kind: ErrorKind::InvalidNumberSkeleton,
            message: "{0, number, ::currency/}".to_string(),
            span: Span::new(Position::new(12, 1, 13), Position::new(23, 1, 24),)
        })
    )
}

#[test]
fn date_arg_skeleton_1() {
    assert_eq!(
        Parser::new("{0, date, ::yyyy.MM.dd G 'at' HH:mm:ss vvvv}", None).parse(),
        Ok(vec![AstElement::Date {
            name: "0",
            span: Span::new(Position::new(0, 1, 1), Position::new(44, 1, 45)),
            style: Some(DateTimeArgStyle::Skeleton(DateTimeSkeleton {
                pattern: "yyyy.MM.dd G 'at' HH:mm:ss vvvv",
                span: Span::new(Position::new(10, 1, 11), Position::new(43, 1, 44)),
            }))
        }])
    )
}

#[test]
fn date_arg_skeleton_2() {
    assert_eq!(
        Parser::new("{0, date, ::EEE, MMM d, ''yy}", None).parse(),
        Ok(vec![AstElement::Date {
            name: "0",
            span: Span::new(Position::new(0, 1, 1), Position::new(29, 1, 30)),
            style: Some(DateTimeArgStyle::Skeleton(DateTimeSkeleton {
                pattern: "EEE, MMM d, ''yy",
                span: Span::new(Position::new(10, 1, 11), Position::new(28, 1, 29)),
            }))
        }])
    )
}

#[test]
fn date_arg_skeleton_3() {
    assert_eq!(
        Parser::new("{0, date, ::h:mm a}", None).parse(),
        Ok(vec![AstElement::Date {
            name: "0",
            span: Span::new(Position::new(0, 1, 1), Position::new(19, 1, 20)),
            style: Some(DateTimeArgStyle::Skeleton(DateTimeSkeleton {
                pattern: "h:mm a",
                span: Span::new(Position::new(10, 1, 11), Position::new(18, 1, 19)),
            }))
        }])
    )
}

#[test]
fn duplicate_plural_selectors() {
    assert_eq!(
        Parser::new("You have {count, plural, one {# hot dog} one {# hamburger} one {# sandwich} other {# snacks}} in your lunch bag.", None).parse(),
        Err(Error {
            kind: ErrorKind::DuplicatePluralArgumentSelector,
            message: "You have {count, plural, one {# hot dog} one {# hamburger} one {# sandwich} other {# snacks}} in your lunch bag.".to_string(),
            span: Span::new(Position::new(41, 1, 42), Position::new(44, 1, 45))
        })
    )
}

#[test]
fn duplicate_select_selectors() {
    assert_eq!(
        Parser::new("You have {count, select, one {# hot dog} one {# hamburger} one {# sandwich} other {# snacks}} in your lunch bag.", None).parse(),
        Err(Error {
            kind: ErrorKind::DuplicateSelectArgumentSelector,
            message: "You have {count, select, one {# hot dog} one {# hamburger} one {# sandwich} other {# snacks}} in your lunch bag.".to_string(),
            span: Span::new(Position::new(41, 1, 42), Position::new(44, 1, 45))
        })
    )
}

#[test]
fn treat_unicode_nbsp_as_whitespace() {
    assert_eq!(
        Parser::new("{gender, select,\n\u{00a0}male {\n    {He}}\n\u{00a0}female {\n    {She}}\n\u{00a0}other{\n    {They}}}\n", None)
        .parse(),
        Ok(vec![
            AstElement::Select {
                name: "gender",
                span: Span::new(Position::new(0, 1, 1), Position::new(79, 7, 13)),
                options: PluralOrSelectOptions(vec![
                    (
                        "male",
                        PluralOrSelectOption {
                            value: vec![
                                AstElement::Literal {
                                    value: "\n    ".to_string(),
                                    span: Span::new(
                                        Position::new(25, 2, 8),
                                        Position::new(30, 3, 5)
                                    ),
                                },
                                AstElement::Argument {
                                    name: "He",
                                    span: Span::new(
                                        Position::new(30, 3, 5),
                                        Position::new(34, 3, 9)
                                    ),
                                },
                            ],
                            span: Span::new(Position::new(24, 2, 7), Position::new(35, 3, 10)),
                        },
                    ),
                    (
                        "female",
                        PluralOrSelectOption {
                            value: vec![
                                AstElement::Literal {
                                    value: "\n    ".to_string(),
                                    span: Span::new(
                                        Position::new(46, 4, 10),
                                        Position::new(51, 5, 5)
                                    ),
                                },
                                AstElement::Argument {
                                    name: "She",
                                    span: Span::new(
                                        Position::new(51, 5, 5),
                                        Position::new(56, 5, 10)
                                    ),
                                },
                            ],
                            span: Span::new(Position::new(45, 4, 9), Position::new(57, 5, 11)),
                        },
                    ),
                    (
                        "other",
                        PluralOrSelectOption {
                            value: vec![
                                AstElement::Literal {
                                    value: "\n    ".to_string(),
                                    span: Span::new(
                                        Position::new(66, 6, 8),
                                        Position::new(71, 7, 5)
                                    ),
                                },
                                AstElement::Argument {
                                    name: "They",
                                    span: Span::new(
                                        Position::new(71, 7, 5),
                                        Position::new(77, 7, 11)
                                    ),
                                },
                            ],
                            span: Span::new(Position::new(65, 6, 7), Position::new(78, 7, 12)),
                        },
                    ),
                ]),
            },
            AstElement::Literal {
                value: "\n".to_string(),
                span: Span::new(Position::new(79, 7, 13), Position::new(80, 8, 1)),
            },
        ])
    )
}

#[test]
fn plural_arg_1() {
    assert_eq!(
        Parser::new("Cart: {itemCount} {itemCount, plural,\n  one {item}\n  other {items}\n}", None)
        .parse(),
        Ok(vec![
            AstElement::Literal {
                value: "Cart: ".to_string(),
                span: Span::new(Position::new(0, 1, 1), Position::new(6, 1, 7)),
            },
            AstElement::Argument {
                name: "itemCount",
                span: Span::new(Position::new(6, 1, 7), Position::new(17, 1, 18)),
            },
            AstElement::Literal {
                value: " ".to_string(),
                span: Span::new(Position::new(17, 1, 18), Position::new(18, 1, 19)),
            },
            AstElement::Plural {
                name: "itemCount",
                plural_type: PluralType::Cardinal,
                span: Span::new(Position::new(18, 1, 19), Position::new(68, 4, 2)),
                offset: 0,
                options: PluralOrSelectOptions(vec![
                    (
                        "one",
                        PluralOrSelectOption {
                            value: vec![AstElement::Literal {
                                value: "item".to_string(),
                                span: Span::new(
                                    Position::new(45, 2, 8),
                                    Position::new(49, 2, 12)
                                ),
                            }],
                            span: Span::new(Position::new(44, 2, 7), Position::new(50, 2, 13)),
                        },
                    ),
                    (
                        "other",
                        PluralOrSelectOption {
                            value: vec![AstElement::Literal {
                                value: "items".to_string(),
                                span: Span::new(
                                    Position::new(60, 3, 10),
                                    Position::new(65, 3, 15)
                                ),
                            },],
                            span: Span::new(Position::new(59, 3, 9), Position::new(66, 3, 16)),
                        },
                    ),
                ]),
            },
        ])
    )
}

#[test]
fn plural_arg_2() {
    assert_eq!(
        Parser::new("You have {itemCount, plural,\n  =0 {no items}\n  one {1 item}\n  other {{itemCount} items}\n}.", None)
        .parse(),
        Ok(vec![
            AstElement::Literal {
                value: "You have ".to_string(),
                span: Span::new(Position::new(0, 1, 1), Position::new(9, 1, 10)),
            },
            AstElement::Plural {
                name: "itemCount",
                plural_type: PluralType::Cardinal,
                span: Span::new(Position::new(9, 1, 10), Position::new(89, 5, 2)),
                offset: 0,
                options: PluralOrSelectOptions(vec![
                    (
                        "=0",
                        PluralOrSelectOption {
                            value: vec![AstElement::Literal {
                                value: "no items".to_string(),
                                span: Span::new(
                                    Position::new(35, 2, 7),
                                    Position::new(43, 2, 15)
                                ),
                            },],
                            span: Span::new(Position::new(34, 2, 6), Position::new(44, 2, 16)),
                        },
                    ),
                    (
                        "one",
                        PluralOrSelectOption {
                            value: vec![AstElement::Literal {
                                value: "1 item".to_string(),
                                span: Span::new(
                                    Position::new(52, 3, 8),
                                    Position::new(58, 3, 14)
                                ),
                            },],
                            span: Span::new(Position::new(51, 3, 7), Position::new(59, 3, 15)),
                        },
                    ),
                    (
                        "other",
                        PluralOrSelectOption {
                            value: vec![
                                AstElement::Argument {
                                    name: "itemCount",
                                    span: Span::new(
                                        Position::new(69, 4, 10),
                                        Position::new(80, 4, 21)
                                    ),
                                },
                                AstElement::Literal {
                                    value: " items".to_string(),
                                    span: Span::new(
                                        Position::new(80, 4, 21),
                                        Position::new(86, 4, 27)
                                    ),
                                },
                            ],
                            span: Span::new(Position::new(68, 4, 9), Position::new(87, 4, 28)),
                        },
                    ),
                ]),
            },
            AstElement::Literal {
                value: ".".to_string(),
                span: Span::new(Position::new(89, 5, 2), Position::new(90, 5, 3)),
            },
        ])
    )
}

#[test]
fn plural_arg_with_offset_1() {
    assert_eq!(
        Parser::new("You have {itemCount, plural, offset: 2\n  =0 {no items}\n  one {1 item}\n  other {{itemCount} items}\n}.", None)
        .parse(),
        Ok(vec![
            AstElement::Literal {
                value: "You have ".to_string(),
                span: Span::new(Position::new(0, 1, 1), Position::new(9, 1, 10)),
            },
            AstElement::Plural {
                name: "itemCount",
                plural_type: PluralType::Cardinal,
                span: Span::new(Position::new(9, 1, 10), Position::new(99, 5, 2)),
                offset: 2,
                options: PluralOrSelectOptions(vec![
                    (
                        "=0",
                        PluralOrSelectOption {
                            value: vec![AstElement::Literal {
                                value: "no items".to_string(),
                                span: Span::new(
                                    Position::new(45, 2, 7),
                                    Position::new(53, 2, 15)
                                ),
                            },],
                            span: Span::new(Position::new(44, 2, 6), Position::new(54, 2, 16)),
                        },
                    ),
                    (
                        "one",
                        PluralOrSelectOption {
                            value: vec![AstElement::Literal {
                                value: "1 item".to_string(),
                                span: Span::new(
                                    Position::new(62, 3, 8),
                                    Position::new(68, 3, 14)
                                ),
                            },],
                            span: Span::new(Position::new(61, 3, 7), Position::new(69, 3, 15)),
                        },
                    ),
                    (
                        "other",
                        PluralOrSelectOption {
                            value: vec![
                                AstElement::Argument {
                                    name: "itemCount",
                                    span: Span::new(
                                        Position::new(79, 4, 10),
                                        Position::new(90, 4, 21)
                                    ),
                                },
                                AstElement::Literal {
                                    value: " items".to_string(),
                                    span: Span::new(
                                        Position::new(90, 4, 21),
                                        Position::new(96, 4, 27)
                                    ),
                                },
                            ],
                            span: Span::new(Position::new(78, 4, 9), Position::new(97, 4, 28)),
                        },
                    ),
                ]),
            },
            AstElement::Literal {
                value: ".".to_string(),
                span: Span::new(Position::new(99, 5, 2), Position::new(100, 5, 3)),
            },
        ])
    )
}

#[test]
fn plural_arg_with_escaped_nested_message() {
    assert_eq!(
        Parser::new("{itemCount, plural,\n  one {item'}'}\n  other {items'}'}\n}", None)
        .parse(),
        Ok(vec![AstElement::Plural {
            name: "itemCount",
            plural_type: PluralType::Cardinal,
            span: Span::new(Position::new(0, 1, 1), Position::new(56, 4, 2)),
            offset: 0,
            options: PluralOrSelectOptions(vec![
                (
                    "one",
                    PluralOrSelectOption {
                        value: vec![AstElement::Literal {
                            value: "item}".to_string(),
                            span: Span::new(Position::new(27, 2, 8), Position::new(34, 2, 15)),
                        },],
                        span: Span::new(Position::new(26, 2, 7), Position::new(35, 2, 16)),
                    },
                ),
                (
                    "other",
                    PluralOrSelectOption {
                        value: vec![AstElement::Literal {
                            value: "items}".to_string(),
                            span: Span::new(Position::new(45, 3, 10), Position::new(53, 3, 18)),
                        },],
                        span: Span::new(Position::new(44, 3, 9), Position::new(54, 3, 19)),
                    },
                ),
            ]),
        }])
    )
}

#[test]
fn select_arg_1() {
    assert_eq!(
        Parser::new("{gender, select,\n    male {He}\n    female {She}\n    other {They}\n} will respond shortly.\n", None)
        .parse(),
        Ok(vec![
            AstElement::Select {
                name: "gender",
                span: Span::new(Position::new(0, 1, 1), Position::new(66, 5, 2)),
                options: PluralOrSelectOptions(vec![
                    (
                        "male",
                        PluralOrSelectOption {
                            value: vec![AstElement::Literal {
                                value: "He".to_string(),
                                span: Span::new(
                                    Position::new(27, 2, 11),
                                    Position::new(29, 2, 13)
                                ),
                            },],
                            span: Span::new(Position::new(26, 2, 10), Position::new(30, 2, 14)),
                        },
                    ),
                    (
                        "female",
                        PluralOrSelectOption {
                            value: vec![AstElement::Literal {
                                value: "She".to_string(),
                                span: Span::new(
                                    Position::new(43, 3, 13),
                                    Position::new(46, 3, 16)
                                ),
                            },],
                            span: Span::new(Position::new(42, 3, 12), Position::new(47, 3, 17)),
                        },
                    ),
                    (
                        "other",
                        PluralOrSelectOption {
                            value: vec![AstElement::Literal {
                                value: "They".to_string(),
                                span: Span::new(
                                    Position::new(59, 4, 12),
                                    Position::new(63, 4, 16)
                                ),
                            },],
                            span: Span::new(Position::new(58, 4, 11), Position::new(64, 4, 17)),
                        },
                    ),
                ]),
            },
            AstElement::Literal {
                value: " will respond shortly.\n".to_string(),
                span: Span::new(Position::new(66, 5, 2), Position::new(89, 6, 1)),
            },
        ])
    )
}

#[test]
fn select_arg_with_nested_arguments() {
    assert_eq!(
        Parser::new("{taxableArea, select,\n    yes {An additional {taxRate, number, percent} tax will be collected.}\n    other {No taxes apply.}\n}\n", None)
        .parse(),
        Ok(vec![
            AstElement::Select {
                name: "taxableArea",
                span: Span::new(Position::new(0, 1, 1), Position::new(125, 4, 2)),
                options: PluralOrSelectOptions(vec![
                    (
                        "yes",
                        PluralOrSelectOption {
                            value: vec![
                                AstElement::Literal {
                                    value: "An additional ".to_string(),
                                    span: Span::new(
                                        Position::new(31, 2, 10),
                                        Position::new(45, 2, 24)
                                    ),
                                },
                                AstElement::Number {
                                    name: "taxRate",
                                    span: Span::new(
                                        Position::new(45, 2, 24),
                                        Position::new(71, 2, 50)
                                    ),
                                    style: Some(NumberArgStyle::Style("percent",),),
                                },
                                AstElement::Literal {
                                    value: " tax will be collected.".to_string(),
                                    span: Span::new(
                                        Position::new(71, 2, 50),
                                        Position::new(94, 2, 73)
                                    ),
                                },
                            ],
                            span: Span::new(Position::new(30, 2, 9), Position::new(95, 2, 74)),
                        },
                    ),
                    (
                        "other",
                        PluralOrSelectOption {
                            value: vec![AstElement::Literal {
                                value: "No taxes apply.".to_string(),
                                span: Span::new(
                                    Position::new(107, 3, 12),
                                    Position::new(122, 3, 27)
                                ),
                            },],
                            span: Span::new(
                                Position::new(106, 3, 11),
                                Position::new(123, 3, 28)
                            ),
                        },
                    ),
                ]),
            },
            AstElement::Literal {
                value: "\n".to_string(),
                span: Span::new(Position::new(125, 4, 2), Position::new(126, 5, 1)),
            },
        ])
    )
}
