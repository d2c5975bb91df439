//! Arguments of type `number`, `date` and `time`, and their styles.
use crate::ast::{
    AstElement, DateTimeArgStyle, DateTimeSkeleton, Error, ErrorKind, NumberArgStyle, Position,
    Span,
};
use crate::cursor::{lemma_find_char_bounds, lemma_skip_space_bounds, skip_space};
use crate::grammar::{
    ArgType, Failure, arg_style_end, close_simple_argument, lemma_prefix_one, simple_argument,
    styled_argument,
};
use crate::skeleton::parse_number_skeleton_from_string;
use crate::strings::{skeleton_in, trim_end_of};
use crate::text::pos_at;
use vstd::prelude::*;
use super::{Parser, arg_type, error_view};

verus! {

impl<'s> Parser<'s> {
    /// Advances to the `}` that ends the style at the position, or to the
    /// end of the message, and returns what was passed. Braces within the
    /// style are counted, and text between apostrophes is passed over; an
    /// apostrophe without a partner is an error.
    pub(super) fn parse_simple_arg_style_if_possible(&mut self) -> (r: Result<&'s str, Error>)
        requires
            old(self).cursor.wf(),
        ensures
            final(self).follows(old(self)),
            match arg_style_end(old(self).s(), old(self).i(), 0) {
                Ok(end) => r matches Ok(style) && style@ == old(self).s().subrange(
                    old(self).i(),
                    end,
                ) && final(self).i() == end,
                Err(failure) => r matches Err(e) && e@ == error_view(old(self).s(), failure),
            },
    {
        let mut nested_braces: usize = 0;
        let start_position = self.position();
        let ghost s = self.s();
        let ghost from = self.i();
        loop
            invariant
                self.follows(old(self)),
                s == self.s(),
                from == old(self).i(),
                start_position == pos_at(s, from),
                0 <= from,
                nested_braces <= self.i() - from,
                arg_style_end(s, self.i(), nested_braces as nat) == arg_style_end(s, from, 0),
            ensures
                self.follows(old(self)),
                arg_style_end(s, from, 0) == Ok::<int, Failure>(self.i()),
            decreases s.len() - self.i(),
        {
            if self.cursor.is_eof() {
                break ;
            }
            proof {
                self.cursor.lemma_position();
            }
            let c = self.cursor.char();
            if c == '\'' {
                let apostrophe_position = self.position();
                proof {
                    lemma_find_char_bounds(s, self.i() + 1, '\'');
                }
                self.cursor.bump();
                if !self.cursor.bump_until('\'') {
                    return Err(
                        self.error(
                            ErrorKind::UnclosedQuoteInArgumentStyle,
                            Span::new(apostrophe_position, self.position()),
                        ),
                    );
                }
                self.cursor.bump();
            } else if c == '{' {
                nested_braces += 1;
                self.cursor.bump();
            } else if c == '}' {
                if nested_braces > 0 {
                    nested_braces -= 1;
                    self.cursor.bump();
                } else {
                    break ;
                }
            } else {
                self.cursor.bump();
            }
        }
        Ok(self.cursor.slice_from(start_position.offset, Ghost(from)))
    }

    /// Parses a `number`, `date` or `time` argument from behind its type on:
    /// an optional `,` and style, and the closing `}`. A style that begins
    /// with `::` is a skeleton.
    #[verifier::rlimit(50)]
    pub(super) fn parse_simple_argument(
        &mut self,
        arg_type: ArgType,
        value: &'s str,
        opening_brace_position: Position,
        Ghost(open): Ghost<int>,
    ) -> (r: Result<AstElement<'s>, Error>)
        requires
            old(self).cursor.wf(),
            0 <= open < old(self).i(),
            opening_brace_position == pos_at(old(self).s(), open),
            arg_type == ArgType::Number || arg_type == ArgType::Date || arg_type == ArgType::Time,
        ensures
            final(self).follows(old(self)),
            match simple_argument(old(self).s(), old(self).i(), arg_type, value@, open) {
                Ok((element, end)) => r matches Ok(e) && e@ == element && final(self).i() == end,
                Err(failure) => r matches Err(e) && e@ == error_view(old(self).s(), failure),
            },
    {
        let ghost s = self.s();
        let ghost from = self.i();
        self.cursor.bump_space();
        let ghost comma = self.i();
        proof {
            reveal(simple_argument);
            reveal(close_simple_argument);
            reveal(styled_argument);
            lemma_skip_space_bounds(s, from);
            reveal_strlit(",");
            lemma_prefix_one(s, comma, ","@, ',');
        }
        let style_and_span = if self.cursor.bump_if(",") {
            self.cursor.bump_space();
            let style_start_position = self.position();
            let ghost start = self.i();
            proof {
                lemma_skip_space_bounds(s, comma + 1);
            }
            let whole = match self.parse_simple_arg_style_if_possible() {
                Ok(whole) => whole,
                Err(e) => {
                    return Err(e);
                },
            };
            proof {
                crate::text::lemma_subrange_byte_len(s, start, self.i());
            }
            let style = trim_end_of(whole);
            if style.is_empty() {
                return Err(
                    self.error(
                        ErrorKind::ExpectArgumentStyle,
                        Span::new(self.position(), self.position()),
                    ),
                );
            }
            proof {
                crate::grammar::lemma_trimmed_len_bound(whole@);
                crate::text::lemma_subrange_byte_len(whole@, 0, style@.len() as int);
            }
            let style_span = Span::new(style_start_position, self.position());
            Some((style, style_span))
        } else {
            None
        };
        let ghost style_view: Option<(Seq<char>, Span)> = match style_and_span {
            Some((style, span)) => Some((style@, span)),
            None => None,
        };
        let ghost close = self.i();
        match self.try_parse_argument_close(opening_brace_position) {
            Ok(_) => {},
            Err(e) => {
                return Err(e);
            },
        }
        let span = Span::new(opening_brace_position, self.position());
        proof {
            assert(simple_argument(s, from, arg_type, value@, open) == close_simple_argument(
                s,
                close,
                arg_type,
                value@,
                open,
                style_view,
            ));
        }
        match style_and_span {
            Some((style, style_span)) => {
                match skeleton_in(style) {
                    Some(skeleton) => {
                        proof {
                            lemma_skip_space_bounds(style@, 2);
                            crate::text::lemma_subrange_byte_len(
                                style@,
                                skip_space(style@, 2),
                                style@.len() as int,
                            );
                        }
                        match arg_type {
                            ArgType::Number => {
                                match parse_number_skeleton_from_string(skeleton, style_span) {
                                    Ok(skeleton) => Ok(
                                        AstElement::Number {
                                            name: value,
                                            span,
                                            style: Some(NumberArgStyle::Skeleton(skeleton)),
                                        },
                                    ),
                                    Err(kind) => Err(self.error(kind, style_span)),
                                }
                            },
                            _ => {
                                if skeleton.is_empty() {
                                    return Err(
                                        self.error(ErrorKind::ExpectDateTimeSkeleton, span),
                                    );
                                }
                                let style = Some(
                                    DateTimeArgStyle::Skeleton(
                                        DateTimeSkeleton { pattern: skeleton, span: style_span },
                                    ),
                                );
                                match arg_type {
                                    ArgType::Date => Ok(
                                        AstElement::Date { name: value, span, style },
                                    ),
                                    _ => Ok(AstElement::Time { name: value, span, style }),
                                }
                            },
                        }
                    },
                    None => Ok(
                        match arg_type {
                            ArgType::Number => AstElement::Number {
                                name: value,
                                span,
                                style: Some(NumberArgStyle::Style(style)),
                            },
                            ArgType::Date => AstElement::Date {
                                name: value,
                                span,
                                style: Some(DateTimeArgStyle::Style(style)),
                            },
                            _ => AstElement::Time {
                                name: value,
                                span,
                                style: Some(DateTimeArgStyle::Style(style)),
                            },
                        },
                    ),
                }
            },
            None => Ok(
                match arg_type {
                    ArgType::Number => AstElement::Number { name: value, span, style: None },
                    ArgType::Date => AstElement::Date { name: value, span, style: None },
                    _ => AstElement::Time { name: value, span, style: None },
                },
            ),
        }
    }
}

} // verus!
