//! Arguments of type `plural`, `selectordinal` and `select`, and their options.
use crate::ast::{
    AstElement, Error, ErrorKind, OptionView, PluralOrSelectOption, PluralOrSelectOptions,
    PluralType, Position, Span, lemma_options_view_push, option_view, options_view,
};
use crate::cursor::lemma_skip_space_bounds;
use crate::grammar::{
    ArgType, REQUIRES_OTHER_CLAUSE, choice_argument, choice_options, has_selector, identifier_end,
    lemma_decimal_bound, lemma_identifier_bound, lemma_prefix_one, message, options, selector_at,
    selector_end,
};
use crate::strings::str_eq;
use crate::text::{pos_at, span_at};
use vstd::prelude::*;
use super::{Parser, arg_type, error_view, has_option};

verus! {

impl<'s> Parser<'s> {
    /// Parses a `plural`, `selectordinal` or `select` argument from behind
    /// its type on: `,`, in a plural argument an optional `offset:` and
    /// number, the options, and the closing `}`.
    #[verifier::rlimit(50)]
    pub(super) fn parse_choice_argument(
        &mut self,
        nesting_level: usize,
        expecting_close_tag: bool,
        arg_type: ArgType,
        value: &'s str,
        opening_brace_position: Position,
        Ghost(open): Ghost<int>,
    ) -> (r: Result<AstElement<'s>, Error>)
        requires
            old(self).cursor.wf(),
            0 <= open < old(self).i(),
            nesting_level <= open,
            opening_brace_position == pos_at(old(self).s(), open),
            arg_type == ArgType::Plural || arg_type == ArgType::SelectOrdinal || arg_type
                == ArgType::Select,
        ensures
            final(self).follows(old(self)),
            match choice_argument(
                old(self).s(),
                old(self).i(),
                arg_type,
                value@,
                open,
                old(self).ctx(nesting_level, None, expecting_close_tag),
            ) {
                Ok((element, end)) => r matches Ok(e) && e@ == element && final(self).i() == end,
                Err(failure) => r matches Err(e) && e@ == error_view(old(self).s(), failure),
            },
        decreases old(self).s().len() - old(self).i(), 1int,
    {
        let type_end_position = self.position();
        let ghost s = self.s();
        let ghost from = self.i();
        let ghost ctx = self.ctx(nesting_level, None, expecting_close_tag);
        self.cursor.bump_space();
        let ghost comma = self.i();
        proof {
            reveal(choice_argument);
            reveal(choice_options);
            reveal(crate::grammar::options);
            lemma_skip_space_bounds(s, from);
            reveal_strlit(",");
            lemma_prefix_one(s, comma, ","@, ',');
        }
        if !self.cursor.bump_if(",") {
            return Err(
                self.error(
                    ErrorKind::ExpectSelectArgumentOptions,
                    Span::new(type_end_position, type_end_position),
                ),
            );
        }
        self.cursor.bump_space();
        let ghost first = self.i();
        proof {
            lemma_skip_space_bounds(s, comma + 1);
            lemma_identifier_bound(s, first);
        }
        let mut identifier_and_span = self.parse_identifier_if_possible();
        let ghost first_end = self.i();
        let mut plural_offset: i64 = 0;
        let ghost mut selector_start = first;
        let is_select = match arg_type {
            ArgType::Select => true,
            _ => false,
        };
        if !is_select && str_eq(identifier_and_span.0, "offset") {
            proof {
                reveal_strlit(":");
                lemma_prefix_one(s, first_end, ":"@, ':');
            }
            if !self.cursor.bump_if(":") {
                return Err(
                    self.error(
                        ErrorKind::ExpectPluralArgumentOffsetValue,
                        Span::new(self.position(), self.position()),
                    ),
                );
            }
            self.cursor.bump_space();
            proof {
                lemma_skip_space_bounds(s, first_end + 1);
                lemma_decimal_bound(s, self.i());
            }
            plural_offset =
            match self.try_parse_decimal_integer(
                ErrorKind::ExpectPluralArgumentOffsetValue,
                ErrorKind::InvalidPluralArgumentOffsetValue,
            ) {
                Ok(offset) => offset,
                Err(e) => {
                    return Err(e);
                },
            };
            proof {
                lemma_skip_space_bounds(s, self.i());
            }
            self.cursor.bump_space();
            proof {
                selector_start = self.i();
            }
            identifier_and_span = self.parse_identifier_if_possible();
        }
        proof {
            assert(choice_argument(s, from, arg_type, value@, open, ctx) == choice_options(
                s,
                selector_start,
                plural_offset,
                arg_type,
                value@,
                open,
                ctx,
            ));
        }
        let options = match self.try_parse_plural_or_select_options(
            nesting_level,
            arg_type,
            expecting_close_tag,
            identifier_and_span,
            Ghost(selector_start),
        ) {
            Ok(options) => options,
            Err(e) => {
                return Err(e);
            },
        };
        match self.try_parse_argument_close(opening_brace_position) {
            Ok(_) => {},
            Err(e) => {
                return Err(e);
            },
        }
        let span = Span::new(opening_brace_position, self.position());
        match arg_type {
            ArgType::Select => Ok(AstElement::Select { name: value, span, options }),
            _ => Ok(
                AstElement::Plural {
                    name: value,
                    span,
                    options,
                    offset: plural_offset,
                    plural_type: match arg_type {
                        ArgType::Plural => PluralType::Cardinal,
                        _ => PluralType::Ordinal,
                    },
                },
            ),
        }
    }

    /// Parses the options of a `plural`, `selectordinal` or `select`
    /// argument: each a selector and a message in braces. A selector is an
    /// identifier or, in a plural argument, `=` and a number. A selector that
    /// came before is an error, and so is a list without an option.
    ///
    /// * `nesting_level` - the nesting level of the argument.
    /// * `parent_arg_type` - the type of the argument.
    /// * `expecting_close_tag` - whether a tag is open around the argument.
    /// * `parsed_first_identifier` - the identifier that was read at index
    ///   `first`, where the first selector is expected, and its span.
    #[verifier::rlimit(50)]
    pub(super) fn try_parse_plural_or_select_options(
        &mut self,
        nesting_level: usize,
        parent_arg_type: ArgType,
        expecting_close_tag: bool,
        parsed_first_identifier: (&'s str, Span),
        Ghost(first): Ghost<int>,
    ) -> (r: Result<PluralOrSelectOptions<'s>, Error>)
        requires
            old(self).cursor.wf(),
            0 <= first,
            nesting_level < first,
            old(self).i() == identifier_end(old(self).s(), first),
            parsed_first_identifier.0@ == old(self).s().subrange(first, old(self).i()),
            parsed_first_identifier.1 == span_at(old(self).s(), first, old(self).i()),
        ensures
            final(self).follows(old(self)),
            match options(
                old(self).s(),
                first,
                seq![],
                parent_arg_type,
                old(self).ctx(nesting_level, None, expecting_close_tag),
            ) {
                Ok((found, end)) => r matches Ok(o) && o@ == found && final(self).i() == end,
                Err(failure) => r matches Err(e) && e@ == error_view(old(self).s(), failure),
            },
        decreases old(self).s().len() - old(self).i(), 0int,
    {
        let mut has_other_clause = false;
        let mut options: Vec<(&'s str, PluralOrSelectOption<'s>)> = Vec::new();
        let (mut selector, mut selector_span) = parsed_first_identifier;
        let ghost s = self.s();
        let ghost ctx = self.ctx(nesting_level, None, expecting_close_tag);
        let ghost mut start = first;
        let is_select = match parent_arg_type {
            ArgType::Select => true,
            _ => false,
        };
        proof {
            assert(options_view(&options) =~= Seq::<(Seq<char>, OptionView)>::empty());
        }
        loop
            invariant
                self.follows(old(self)),
                s == self.s(),
                ctx == self.ctx(nesting_level, None, expecting_close_tag),
                is_select == (parent_arg_type == ArgType::Select),
                first <= start,
                nesting_level < first,
                self.i() == identifier_end(s, start),
                selector@ == s.subrange(start, self.i()),
                selector_span == span_at(s, start, self.i()),
                has_other_clause == has_selector(options_view(&options), "other"@),
                crate::grammar::options(s, start, options_view(&options), parent_arg_type, ctx)
                    == crate::grammar::options(s, first, seq![], parent_arg_type, ctx),
            decreases s.len() - start,
        {
            let ghost seen = options_view(&options);
            proof {
                reveal(crate::grammar::options);
                reveal(message);
                lemma_identifier_bound(s, start);
                reveal_strlit("=");
                lemma_prefix_one(s, start, "="@, '=');
                if start < s.len() {
                    lemma_decimal_bound(s, start + 1);
                }
            }
            if selector.is_empty() {
                let start_position = self.position();
                if !is_select && self.cursor.bump_if("=") {
                    match self.try_parse_decimal_integer(
                        ErrorKind::ExpectPluralArgumentSelector,
                        ErrorKind::InvalidPluralArgumentSelector,
                    ) {
                        Ok(_) => {},
                        Err(e) => {
                            return Err(e);
                        },
                    }
                    selector_span = Span::new(start_position, self.position());
                    selector = self.cursor.slice_from(start_position.offset, Ghost(start));
                } else {
                    if options.len() == 0 {
                        return Err(
                            self.error(
                                if is_select {
                                    ErrorKind::ExpectSelectArgumentSelector
                                } else {
                                    ErrorKind::ExpectPluralArgumentSelector
                                },
                                Span::new(self.position(), self.position()),
                            ),
                        );
                    }
                    if REQUIRES_OTHER_CLAUSE && !has_other_clause {
                        return Err(
                            self.error(
                                ErrorKind::MissingOtherClause,
                                Span::new(self.position(), self.position()),
                            ),
                        );
                    }
                    return Ok(PluralOrSelectOptions(options));
                }
            }
            let ghost end = self.i();
            proof {
                assert(end == selector_end(s, start));
                assert(selector_at(s, start, parent_arg_type));
            }
            if has_option(&options, selector) {
                return Err(
                    self.error(
                        if is_select {
                            ErrorKind::DuplicateSelectArgumentSelector
                        } else {
                            ErrorKind::DuplicatePluralArgumentSelector
                        },
                        selector_span,
                    ),
                );
            }
            let is_other = str_eq(selector, "other");
            proof {
                lemma_skip_space_bounds(s, end);
            }
            self.cursor.bump_space();
            let opening_brace_position = self.position();
            let ghost brace = self.i();
            proof {
                reveal_strlit("{");
                lemma_prefix_one(s, brace, "{"@, '{');
                self.cursor.lemma_position();
            }
            if !self.cursor.bump_if("{") {
                return Err(
                    self.error(
                        if is_select {
                            ErrorKind::ExpectSelectArgumentSelectorFragment
                        } else {
                            ErrorKind::ExpectPluralArgumentSelectorFragment
                        },
                        Span::new(self.position(), self.position()),
                    ),
                );
            }
            proof {
                assert(ctx.option_of(parent_arg_type) == self.ctx(
                    (nesting_level + 1) as usize,
                    Some(parent_arg_type),
                    expecting_close_tag,
                ));
            }
            let fragment = match self.parse_message(
                nesting_level + 1,
                Some(parent_arg_type),
                expecting_close_tag,
            ) {
                Ok(fragment) => fragment,
                Err(e) => {
                    return Err(e);
                },
            };
            let ghost close = self.i();
            match self.try_parse_argument_close(opening_brace_position) {
                Ok(_) => {},
                Err(e) => {
                    return Err(e);
                },
            }
            let option = PluralOrSelectOption {
                value: fragment,
                span: Span::new(opening_brace_position, self.position()),
            };
            let ghost before = options;
            let ghost last = option;
            options.push((selector, option));
            if is_other {
                has_other_clause = true;
            }
            proof {
                lemma_options_view_push(&before, &options, selector, &last);
                let added = (selector@, option_view(&last));
                assert(options_view(&options) == seen.push(added));
                assert(seen.push(added)[seen.len() as int] == added);
                if has_selector(seen, "other"@) {
                    let k = choose|k: int| 0 <= k < seen.len() && (#[trigger] seen[k]).0 == "other"@;
                    assert(seen.push(added)[k] == seen[k]);
                }
                if has_selector(seen.push(added), "other"@) && !is_other {
                    let k = choose|k: int|
                        0 <= k < seen.push(added).len() && (#[trigger] seen.push(added)[k]).0
                            == "other"@;
                    assert(seen.push(added)[k] == seen[k]);
                }
                lemma_skip_space_bounds(s, close + 1);
            }
            self.cursor.bump_space();
            proof {
                start = self.i();
            }
            let next = self.parse_identifier_if_possible();
            selector = next.0;
            selector_span = next.1;
        }
    }
}

} // verus!
