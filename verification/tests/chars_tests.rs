use intl_messageformat_parser_rs::ast::{
    ErrorKind, NumberSkeleton, NumberSkeletonToken, Position, Span,
};
use intl_messageformat_parser_rs::chars::{
    is_ascii_lowercase, is_decimal_digit, is_potential_element_name_char, is_white_space, len_utf8,
};
use intl_messageformat_parser_rs::pattern_syntax::{
    is_pattern_syntax, PATTERN_SYNTAX_RANGES, PATTERN_SYNTAX_RANGE_COUNT,
};
use intl_messageformat_parser_rs::skeleton::parse_number_skeleton_from_string;
use intl_messageformat_parser_rs::strings::{skeleton_in, str_eq, trim_end_of};

fn scalars() -> impl Iterator<Item = char> {
    (0u32..=0x10ffff).filter_map(char::from_u32)
}

#[test]
fn white_space_is_what_std_takes_for_it() {
    for c in scalars() {
        assert_eq!(is_white_space(c), c.is_whitespace(), "U+{:04X}", c as u32);
    }
}

#[test]
fn no_break_space_is_white_space() {
    assert!(is_white_space('\u{a0}'));
    assert!(is_white_space('\n'));
    assert!(!is_white_space('a'));
    assert!(!is_white_space('\u{200b}'));
}

#[test]
fn decimal_digits_are_ascii() {
    for c in scalars() {
        assert_eq!(is_decimal_digit(c), c.is_digit(10), "U+{:04X}", c as u32);
    }
}

#[test]
fn lower_case_letters_are_ascii() {
    for c in scalars() {
        assert_eq!(is_ascii_lowercase(c), c.is_ascii_lowercase(), "U+{:04X}", c as u32);
    }
}

#[test]
fn utf8_length_is_that_of_std() {
    for c in scalars() {
        assert_eq!(len_utf8(c), c.len_utf8(), "U+{:04X}", c as u32);
    }
}

#[test]
fn element_name_chars_at_the_edges_of_their_ranges() {
    let inside = [
        '-', '.', '0', '9', '_', 'a', 'z', 'A', 'Z', '\u{b7}', '\u{c0}', '\u{d6}', '\u{d8}',
        '\u{f6}', '\u{f8}', '\u{37d}', '\u{37f}', '\u{1fff}', '\u{200c}', '\u{200d}', '\u{203f}',
        '\u{2040}', '\u{2070}', '\u{218f}', '\u{2c00}', '\u{2fef}', '\u{3001}', '\u{d7ff}',
        '\u{f900}', '\u{fdcf}', '\u{fdf0}', '\u{fffd}', '\u{10000}', '\u{effff}',
    ];
    for c in inside {
        assert!(is_potential_element_name_char(c), "U+{:04X}", c as u32);
    }
    let outside = [
        ' ', '/', ':', '@', '[', '`', '{', '\u{b6}', '\u{b8}', '\u{bf}', '\u{d7}', '\u{f7}',
        '\u{37e}', '\u{2000}', '\u{200b}', '\u{200e}', '\u{203e}', '\u{2041}', '\u{206f}',
        '\u{2190}', '\u{2bff}', '\u{2ff0}', '\u{3000}', '\u{e000}', '\u{f8ff}', '\u{fdd0}',
        '\u{fdef}', '\u{fffe}', '\u{ffff}', '\u{f0000}', '\u{10ffff}',
    ];
    for c in outside {
        assert!(!is_potential_element_name_char(c), "U+{:04X}", c as u32);
    }
}

#[test]
fn pattern_syntax_holds_2760_code_points() {
    assert_eq!(scalars().filter(|c| is_pattern_syntax(*c)).count(), 2760);
}

#[test]
fn pattern_syntax_is_what_the_table_holds() {
    assert_eq!(PATTERN_SYNTAX_RANGES.len(), PATTERN_SYNTAX_RANGE_COUNT);
    for c in scalars() {
        let v = c as u32;
        let in_table = PATTERN_SYNTAX_RANGES.iter().any(|(first, last)| *first <= v && v <= *last);
        assert_eq!(is_pattern_syntax(c), in_table, "U+{:04X}", v);
    }
}

#[test]
fn pattern_syntax_at_the_edges_of_its_ranges() {
    for v in [33u32, 47, 58, 64, 91, 94, 96, 123, 126, 161, 167, 169, 171, 172, 174, 176, 177, 182,
        187, 191, 215, 247, 8208, 8231, 8240, 8254, 8257, 8275, 8277, 8286, 8592, 9311, 9472,
        10101, 10132, 11263, 11776, 11903, 12289, 12291, 12296, 12320, 12336, 64830, 64831, 65093,
        65094]
    {
        assert!(is_pattern_syntax(char::from_u32(v).unwrap()), "{}", v);
    }
    for v in [0u32, 32, 48, 57, 65, 90, 95, 97, 122, 127, 160, 168, 170, 173, 175, 8207, 8232,
        8239, 8255, 8256, 8276, 8287, 8591, 9312, 9471, 10102, 10131, 11264, 11775, 11904, 12288,
        12292, 12295, 12321, 12335, 12337, 64829, 64832, 65092, 65095, 0x10ffff]
    {
        assert!(!is_pattern_syntax(char::from_u32(v).unwrap()), "{}", v);
    }
}

#[test]
fn strings_are_compared_by_their_scalars() {
    assert!(str_eq("", ""));
    assert!(str_eq("plural", "plural"));
    assert!(!str_eq("plural", "plura"));
    assert!(!str_eq("plural", "pluraL"));
    assert!(str_eq("中文", "中文"));
    assert!(!str_eq("中文", "中"));
}

#[test]
fn trailing_whitespace_is_trimmed() {
    assert_eq!(trim_end_of(""), "");
    assert_eq!(trim_end_of("  "), "");
    assert_eq!(trim_end_of("a b \u{a0}\n"), "a b");
    assert_eq!(trim_end_of(" 中 文"), " 中 文");
}

#[test]
fn skeleton_follows_two_colons() {
    assert_eq!(skeleton_in("::"), Some(""));
    assert_eq!(skeleton_in(":: \u{a0}a b "), Some("a b "));
    assert_eq!(skeleton_in(":a"), None);
    assert_eq!(skeleton_in("a::"), None);
}

#[test]
fn position_and_span_keep_what_they_are_given() {
    let start = Position::new(3, 2, 1);
    let end = Position::new(9, 2, 4);
    assert_eq!(start, Position { offset: 3, line: 2, column: 1 });
    assert_eq!(Span::new(start, end), Span { start, end });
}

const TEXTS: [&str; 14] = [
    "",
    " ",
    "a",
    " a ",
    "a b  ",
    "\u{a0}a\u{a0}",
    "a\t\n\r\u{b}\u{c}",
    "a\u{85}\u{1680}\u{2000}\u{200a}\u{2028}\u{2029}\u{202f}\u{205f}\u{3000}",
    "a\u{200b}",
    "中 文 ",
    ":: a",
    "::\u{3000}中/文  x//y /z ",
    "::currency/GBP .00##/@@@ unit-width-full-name",
    "a/b/ c/ /d e/f/g\u{a0}h",
];

#[test]
fn trimming_is_that_of_std() {
    for text in TEXTS {
        assert_eq!(trim_end_of(text), text.trim_end(), "{:?}", text);
    }
}

#[test]
fn skeleton_is_what_std_finds_behind_two_colons() {
    for text in TEXTS {
        assert_eq!(skeleton_in(text), text.strip_prefix("::").map(|k| k.trim_start()), "{:?}", text);
    }
}

#[test]
fn skeleton_tokens_are_the_words_split_at_slashes() {
    let span = Span::new(Position::new(1, 1, 2), Position::new(5, 1, 6));
    for text in TEXTS {
        let words: Vec<&str> = text.split(char::is_whitespace).filter(|w| !w.is_empty()).collect();
        let expected = if text.is_empty() {
            Err(ErrorKind::ExpectNumberSkeleton)
        } else if words.iter().any(|w| w.split('/').skip(1).any(|o| o.is_empty())) {
            Err(ErrorKind::InvalidNumberSkeleton)
        } else {
            Ok(NumberSkeleton {
                tokens: words
                    .iter()
                    .map(|w| {
                        let mut parts = w.split('/');
                        NumberSkeletonToken {
                            stem: parts.next().unwrap_or(""),
                            options: parts.collect(),
                        }
                    })
                    .collect(),
                span,
            })
        };
        assert_eq!(parse_number_skeleton_from_string(text, span), expected, "{:?}", text);
    }
}
