//! Arguments, from `{` to the argument type.
use crate::ast::{AstElement, Error, ErrorKind, Position, Span};
use crate::cursor::lemma_skip_space_bounds;
use crate::grammar::{
    ArgType, argument, argument_options, at, choice_argument, lemma_identifier_bound,
};
use crate::text::pos_at;
use vstd::prelude::*;
use super::{Parser, arg_type, error_view};

verus! {

impl<'s> Parser<'s> {
    /// Parses the argument that `{` opens at the position.
    pub(super) fn parse_argument(&mut self, nesting_level: usize, expecting_close_tag: bool) -> (r: Result<
        AstElement<'s>,
        Error,
    >)
        requires
            old(self).cursor.wf(),
            at(old(self).s(), old(self).i(), '{'),
            nesting_level <= old(self).i(),
        ensures
            final(self).follows(old(self)),
            r is Ok ==> final(self).i() > old(self).i(),
            match argument(
                old(self).s(),
                old(self).i(),
                old(self).ctx(nesting_level, None, expecting_close_tag),
            ) {
                Ok((element, end)) => r matches Ok(e) && e@ == element && final(self).i() == end,
                Err(failure) => r matches Err(e) && e@ == error_view(old(self).s(), failure),
            },
        decreases old(self).s().len() - old(self).i(), 3int,
    {
        let opening_brace_position = self.position();
        let ghost s = self.s();
        let ghost open = self.i();
        proof {
            reveal(argument);
            reveal(argument_options);
        }
        self.cursor.bump();
        self.cursor.bump_space();
        proof {
            lemma_skip_space_bounds(s, open + 1);
        }
        if self.cursor.is_eof() {
            return Err(
                self.error(
                    ErrorKind::ExpectArgumentClosingBrace,
                    Span::new(opening_brace_position, self.position()),
                ),
            );
        }
        if self.cursor.char() == '}' {
            self.cursor.bump();
            return Err(
                self.error(
                    ErrorKind::EmptyArgument,
                    Span::new(opening_brace_position, self.position()),
                ),
            );
        }
        let ghost start = self.i();
        let value = self.parse_identifier_if_possible().0;
        if value.is_empty() {
            return Err(
                self.error(
                    ErrorKind::MalformedArgument,
                    Span::new(opening_brace_position, self.position()),
                ),
            );
        }
        proof {
            lemma_identifier_bound(s, start);
            lemma_skip_space_bounds(s, self.i());
        }
        self.cursor.bump_space();
        if self.cursor.is_eof() {
            return Err(
                self.error(
                    ErrorKind::ExpectArgumentClosingBrace,
                    Span::new(opening_brace_position, self.position()),
                ),
            );
        }
        let c = self.cursor.char();
        let ghost next = self.i();
        if c == '}' {
            self.cursor.bump();
            let element = AstElement::Argument {
                name: value,
                span: Span::new(opening_brace_position, self.position()),
            };
            Ok(element)
        } else if c == ',' {
            self.cursor.bump();
            self.cursor.bump_space();
            if self.cursor.is_eof() {
                return Err(
                    self.error(
                        ErrorKind::ExpectArgumentClosingBrace,
                        Span::new(opening_brace_position, self.position()),
                    ),
                );
            }
            self.parse_argument_options(
                nesting_level,
                expecting_close_tag,
                value,
                opening_brace_position,
                Ghost(open),
            )
        } else {
            Err(
                self.error(
                    ErrorKind::MalformedArgument,
                    Span::new(opening_brace_position, self.position()),
                ),
            )
        }
    }

    /// Parses an argument from its type on: `number`, `date` and `time` with
    /// an optional style, `plural`, `selectordinal` and `select` with their
    /// options, each up to and with the closing `}`.
    ///
    /// * `value` - the name of the argument.
    /// * `opening_brace_position` - the position of its `{`, at index `open`.
    pub(super) fn parse_argument_options(
        &mut self,
        nesting_level: usize,
        expecting_close_tag: bool,
        value: &'s str,
        opening_brace_position: Position,
        Ghost(open): Ghost<int>,
    ) -> (r: Result<AstElement<'s>, Error>)
        requires
            old(self).cursor.wf(),
            0 <= open < old(self).i(),
            nesting_level <= open,
            opening_brace_position == pos_at(old(self).s(), open),
        ensures
            final(self).follows(old(self)),
            match argument_options(
                old(self).s(),
                old(self).i(),
                value@,
                open,
                old(self).ctx(nesting_level, None, expecting_close_tag),
            ) {
                Ok((element, end)) => r matches Ok(e) && e@ == element && final(self).i() == end,
                Err(failure) => r matches Err(e) && e@ == error_view(old(self).s(), failure),
            },
        decreases old(self).s().len() - old(self).i(), 2int,
    {
        let type_starting_position = self.position();
        let ghost s = self.s();
        let ghost from = self.i();
        let type_text = self.parse_identifier_if_possible().0;
        let type_end_position = self.position();
        proof {
            reveal(argument_options);
            reveal(choice_argument);
            lemma_identifier_bound(s, from);
        }
        if type_text.is_empty() {
            return Err(
                self.error(
                    ErrorKind::ExpectArgumentType,
                    Span::new(type_starting_position, type_end_position),
                ),
            );
        }
        match arg_type(type_text) {
            None => Err(
                self.error(
                    ErrorKind::InvalidArgumentType,
                    Span::new(type_starting_position, type_end_position),
                ),
            ),
            Some(ArgType::Number) => self.parse_simple_argument(
                ArgType::Number,
                value,
                opening_brace_position,
                Ghost(open),
            ),
            Some(ArgType::Date) => self.parse_simple_argument(
                ArgType::Date,
                value,
                opening_brace_position,
                Ghost(open),
            ),
            Some(ArgType::Time) => self.parse_simple_argument(
                ArgType::Time,
                value,
                opening_brace_position,
                Ghost(open),
            ),
            Some(choice) => self.parse_choice_argument(
                nesting_level,
                expecting_close_tag,
                choice,
                value,
                opening_brace_position,
                Ghost(open),
            ),
        }
    }
}

} // verus!
