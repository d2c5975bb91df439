//! The message loop.
use crate::ast::{
    Ast, AstElement, ElementView, Error, ErrorKind, Span, ast_view, lemma_ast_view_push,
};
use crate::chars::is_ascii_lowercase;
use crate::grammar::{
    ArgType, Failure, after, argument, element as grammar_element, lemma_literal_progress,
    lemma_tag_context, message, tag,
};
use vstd::prelude::*;
use super::{Parser, error_view, is_plural_parent};

verus! {

impl<'s> Parser<'s> {
    /// Parses a message up to where it ends: the end of the text, a `}` in a
    /// nested message, or a closing tag where one is expected.
    ///
    /// * `nesting_level` - how deep the message is nested in arguments and
    ///   tags.
    /// * `parent_arg_type` - the type of the argument whose option the
    ///   message is, if it is one.
    /// * `expecting_close_tag` - whether a tag is open around the message.
    #[verifier::rlimit(50)]
    pub(super) fn parse_message(
        &mut self,
        nesting_level: usize,
        parent_arg_type: Option<ArgType>,
        expecting_close_tag: bool,
    ) -> (r: Result<Ast<'s>, Error>)
        requires
            old(self).cursor.wf(),
            nesting_level <= old(self).i(),
        ensures
            final(self).follows(old(self)),
            match message(
                old(self).s(),
                old(self).i(),
                old(self).ctx(nesting_level, parent_arg_type, expecting_close_tag),
            ) {
                Ok((elements, end)) => r matches Ok(ast) && ast_view(&ast) == elements
                    && final(self).i() == end,
                Err(failure) => r matches Err(e) && e@ == error_view(old(self).s(), failure),
            },
        decreases old(self).s().len() - old(self).i(), 5int,
    {
        let mut elements: Vec<AstElement<'s>> = Vec::new();
        let ghost s = self.s();
        let ghost from = self.i();
        let ghost ctx = self.ctx(nesting_level, parent_arg_type, expecting_close_tag);
        proof {
            reveal(message);
            assert(ast_view(&elements) =~= Seq::<ElementView>::empty());
            match message(s, from, ctx) {
                Ok((found, _)) => {
                    assert(Seq::<ElementView>::empty() + found =~= found);
                },
                Err(_) => {},
            }
        }
        loop
            invariant
                self.follows(old(self)),
                s == self.s(),
                from == old(self).i(),
                ctx == self.ctx(nesting_level, parent_arg_type, expecting_close_tag),
                nesting_level <= self.i(),
                after(ast_view(&elements), message(s, self.i(), ctx)) == message(s, from, ctx),
            decreases s.len() - self.i(),
        {
            let ghost k = self.i();
            let ghost found = ast_view(&elements);
            proof {
                reveal(message);
                reveal(grammar_element);
                reveal(argument);
                reveal(tag);
                assert(found + Seq::<ElementView>::empty() =~= found);
            }
            if self.cursor.is_eof() {
                return Ok(elements);
            }
            let c = self.cursor.char();
            let next = self.cursor.peek();
            let element = if c == '{' {
                match self.parse_argument(nesting_level, expecting_close_tag) {
                    Ok(element) => element,
                    Err(e) => {
                        return Err(e);
                    },
                }
            } else if c == '}' && nesting_level > 0 {
                return Ok(elements);
            } else if c == '#' && is_plural_parent(parent_arg_type) {
                let position = self.position();
                self.cursor.bump();
                AstElement::Pound(Span::new(position, self.position()))
            } else if c == '<' && !self.should_ignore_tag && next == Some('/') {
                if expecting_close_tag {
                    return Ok(elements);
                } else {
                    return Err(
                        self.error(
                            ErrorKind::UnmatchedClosingTag,
                            Span::new(self.position(), self.position()),
                        ),
                    );
                }
            } else if c == '<' && !self.should_ignore_tag && (match next {
                Some(letter) => is_ascii_lowercase(letter),
                None => false,
            }) {
                proof {
                    lemma_tag_context(s, k, self.ctx(nesting_level, parent_arg_type, false), ctx);
                }
                match self.parse_tag(nesting_level, parent_arg_type) {
                    Ok(element) => element,
                    Err(e) => {
                        return Err(e);
                    },
                }
            } else {
                proof {
                    lemma_literal_progress(s, k, ctx);
                }
                match self.parse_literal(nesting_level, parent_arg_type) {
                    Ok(element) => element,
                    Err(e) => {
                        return Err(e);
                    },
                }
            };
            let ghost before = elements;
            let ghost last = element;
            proof {
                assert(grammar_element(s, k, ctx) == Ok::<(ElementView, int), Failure>(
                    (last@, self.i()),
                ));
                assert(k < self.i() <= s.len());
                match message(s, self.i(), ctx) {
                    Ok((more, _)) => {
                        assert(found.push(last@) + more =~= found + (seq![last@] + more));
                    },
                    Err(_) => {},
                }
            }
            elements.push(element);
            proof {
                lemma_ast_view_push(&before, &elements, &last);
            }
        }
    }
}

} // verus!
