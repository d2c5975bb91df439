//! The small steps of the parser: identifiers, tag names and the closing brace.
use crate::ast::{Error, ErrorKind, Position, Span};
use crate::chars::{is_potential_element_name_char, is_white_space};
use crate::grammar::{Failure, at, identifier_end, name_run, tag_name_end};
use crate::pattern_syntax::is_pattern_syntax;
use crate::text::{pos_at, span_at};
use vstd::prelude::*;
use super::{Parser, error_view};

verus! {

impl<'s> Parser<'s> {
    /// Passes the `}` that closes an argument. Anything else is an error
    /// with the span from `opening_brace_position` to the position.
    pub(super) fn try_parse_argument_close(&mut self, opening_brace_position: Position) -> (r: Result<
        (),
        Error,
    >)
        requires
            old(self).cursor.wf(),
        ensures
            final(self).follows(old(self)),
            at(old(self).s(), old(self).i(), '}') ==> r is Ok && final(self).i() == old(self).i()
                + 1,
            !at(old(self).s(), old(self).i(), '}') ==> (r matches Err(e) && e@ == error_view(
                old(self).s(),
                Failure {
                    kind: ErrorKind::ExpectArgumentClosingBrace,
                    span: Span {
                        start: opening_brace_position,
                        end: pos_at(old(self).s(), old(self).i()),
                    },
                },
            )),
    {
        if self.cursor.is_eof() {
            return Err(
                self.error(
                    ErrorKind::ExpectArgumentClosingBrace,
                    Span::new(opening_brace_position, self.position()),
                ),
            );
        }
        if self.cursor.char() != '}' {
            return Err(
                self.error(
                    ErrorKind::ExpectArgumentClosingBrace,
                    Span::new(opening_brace_position, self.position()),
                ),
            );
        }
        self.cursor.bump();
        Ok(())
    }

    /// Advances to the end of the identifier at the position and returns it
    /// with its span. Where none begins there both are empty.
    pub(super) fn parse_identifier_if_possible(&mut self) -> (r: (&'s str, Span))
        requires
            old(self).cursor.wf(),
        ensures
            final(self).follows(old(self)),
            final(self).i() == identifier_end(old(self).s(), old(self).i()),
            r.0@ == old(self).s().subrange(old(self).i(), final(self).i()),
            r.1 == span_at(old(self).s(), old(self).i(), final(self).i()),
    {
        let starting_position = self.position();
        let ghost from = self.cursor.index@;
        loop
            invariant
                self.follows(old(self)),
                from == old(self).i(),
                starting_position == pos_at(self.s(), from),
                identifier_end(self.s(), self.i()) == identifier_end(self.s(), from),
            ensures
                self.follows(old(self)),
                self.i() == identifier_end(self.s(), from),
            decreases self.s().len() - self.i(),
        {
            if self.cursor.is_eof() {
                break ;
            }
            let c = self.cursor.char();
            if is_white_space(c) || is_pattern_syntax(c) {
                break ;
            }
            self.cursor.bump();
        }
        let end_position = self.position();
        let span = Span::new(starting_position, end_position);
        (self.cursor.slice_from(starting_position.offset, Ghost(from)), span)
    }

    /// Advances over a tag name, whose first letter is at the position, and
    /// returns it.
    pub(super) fn parse_tag_name(&mut self) -> (name: &'s str)
        requires
            old(self).cursor.wf(),
            old(self).i() < old(self).s().len(),
        ensures
            final(self).follows(old(self)),
            final(self).i() == tag_name_end(old(self).s(), old(self).i()),
            name@ == old(self).s().subrange(old(self).i(), final(self).i()),
    {
        let start_offset = self.cursor.offset();
        let ghost from = self.cursor.index@;
        self.cursor.bump();
        loop
            invariant
                self.follows(old(self)),
                from == old(self).i(),
                from < self.i(),
                self.i() + name_run(self.s(), self.i()) == tag_name_end(self.s(), from),
            ensures
                self.follows(old(self)),
                self.i() == tag_name_end(self.s(), from),
            decreases self.s().len() - self.i(),
        {
            if self.cursor.is_eof() {
                break ;
            }
            if !is_potential_element_name_char(self.cursor.char()) {
                break ;
            }
            self.cursor.bump();
        }
        self.cursor.slice_from(start_offset, Ghost(from))
    }
}

} // verus!
