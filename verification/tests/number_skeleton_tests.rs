use intl_messageformat_parser_rs::ast::{
    AstElement, NumberArgStyle, NumberSkeleton, NumberSkeletonToken,
};
use intl_messageformat_parser_rs::parser::Parser;

fn skeleton_tokens_of(skeleton: &str, expected_tokens: &Vec<NumberSkeletonToken>) {
    let message = format!("{{0, number, ::{}}}", skeleton);
    match Parser::new(&message[..], None).parse() {
        Ok(ast_elements) => match &ast_elements[..] {
            [AstElement::Number {
                style: Some(NumberArgStyle::Skeleton(NumberSkeleton { tokens, .. })),
                ..
            }] => {
                assert_eq!(expected_tokens, tokens)
            }
            _ => panic!("Failed to parse {}", message),
        },
        _ => panic!("Failed to parse {}", message),
    }
}

#[test]
fn compact_short_and_currency() {
    skeleton_tokens_of(
        "compact-short currency/GBP",
        &vec![
            NumberSkeletonToken {
                stem: "compact-short",
                options: vec![],
            },
            NumberSkeletonToken {
                stem: "currency",
                options: vec!["GBP"],
            }
        ],
    );
}

#[test]
fn significant_digits_stem() {
    skeleton_tokens_of(
        "@@#",
        &vec![
            NumberSkeletonToken {
                stem: "@@#",
                options: vec![],
            },
        ],
    );
}

#[test]
fn currency_and_unit_width() {
    skeleton_tokens_of(
        "currency/CAD unit-width-narrow",
        &vec![
            NumberSkeletonToken {
                stem: "currency",
                options: vec!["CAD"],
            },
            NumberSkeletonToken {
                stem: "unit-width-narrow",
                options: vec![],
            }
        ],
    );
}

#[test]
fn percent_and_fraction() {
    skeleton_tokens_of(
        "percent .##",
        &vec![
            NumberSkeletonToken {
                stem: "percent",
                options: vec![],
            },
            NumberSkeletonToken {
                stem: ".##",
                options: vec![],
            },
        ],
    );
}

#[test]
fn percent_and_fraction_with_star() {
    skeleton_tokens_of(
        "percent .000*",
        &vec![
            NumberSkeletonToken {
                stem: "percent",
                options: vec![],
            },
            NumberSkeletonToken {
                stem: ".000*",
                options: vec![],
            },
        ],
    );
}

#[test]
fn percent_and_optional_fraction() {
    skeleton_tokens_of(
        "percent .0###",
        &vec![
            NumberSkeletonToken {
                stem: "percent",
                options: vec![],
            },
            NumberSkeletonToken {
                stem: ".0###",
                options: vec![],
            },
        ],
    );
}

#[test]
fn percent_and_fraction_with_rounding() {
    skeleton_tokens_of(
        "percent .00/@##",
        &vec![
            NumberSkeletonToken {
                stem: "percent",
                options: vec![],
            },
            NumberSkeletonToken {
                stem: ".00",
                options: vec!["@##"],
            },
        ],
    );
}

#[test]
fn percent_and_fraction_with_three_digits() {
    skeleton_tokens_of(
        "percent .00/@@@",
        &vec![
            NumberSkeletonToken {
                stem: "percent",
                options: vec![],
            },
            NumberSkeletonToken {
                stem: ".00",
                options: vec!["@@@"],
            },
        ],
    );
}

#[test]
fn percent_and_fraction_with_digits_and_star() {
    skeleton_tokens_of(
        "percent .00/@@@@*",
        &vec![
            NumberSkeletonToken {
                stem: "percent",
                options: vec![],
            },
            NumberSkeletonToken {
                stem: ".00",
                options: vec!["@@@@*"],
            },
        ],
    );
}

#[test]
fn currency_with_fraction_and_unit_width() {
    skeleton_tokens_of(
        "currency/GBP .00##/@@@ unit-width-full-name",
        &vec![
            NumberSkeletonToken {
                stem: "currency",
                options: vec!["GBP"],
            },
            NumberSkeletonToken {
                stem: ".00##",
                options: vec!["@@@"],
            },
            NumberSkeletonToken {
                stem: "unit-width-full-name",
                options: vec![],
            },
        ],
    );
}

#[test]
fn measure_unit_with_fraction_and_unit_width() {
    skeleton_tokens_of(
        "measure-unit/length-meter .00##/@@@ unit-width-full-name",
        &vec![
            NumberSkeletonToken {
                stem: "measure-unit",
                options: vec!["length-meter"],
            },
            NumberSkeletonToken {
                stem: ".00##",
                options: vec!["@@@"],
            },
            NumberSkeletonToken {
                stem: "unit-width-full-name",
                options: vec![],
            },
        ],
    );
}

#[test]
fn scientific_with_two_options() {
    skeleton_tokens_of(
        "scientific/+ee/sign-always",
        &vec![
            NumberSkeletonToken {
                stem: "scientific",
                options: vec!["+ee", "sign-always"],
            },
        ],
    );
}
