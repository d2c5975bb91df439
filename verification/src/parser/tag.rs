//! Tags.
use crate::ast::{AstElement, ElementView, Error, ErrorKind, Span, ast_view};
use crate::chars::is_ascii_lowercase;
use crate::cursor::lemma_skip_space_bounds;
use crate::grammar::{
    ArgType, at, lemma_name_bound, lemma_prefix_one, lemma_prefix_two, message, tag,
};
use crate::strings::str_eq;
use vstd::prelude::*;
use super::{Parser, error_view};

verus! {

impl<'s> Parser<'s> {
    /// Parses the tag that `<` opens at the position, before a lower case
    /// letter: `<name/>`, or `<name>`, a message and `</name>`. Whitespace
    /// may follow a name.
    pub(super) fn parse_tag(&mut self, nesting_level: usize, parent_arg_type: Option<ArgType>) -> (r: Result<
        AstElement<'s>,
        Error,
    >)
        requires
            old(self).cursor.wf(),
            at(old(self).s(), old(self).i(), '<'),
            old(self).i() + 1 < old(self).s().len(),
            nesting_level <= old(self).i(),
        ensures
            final(self).follows(old(self)),
            r is Ok ==> final(self).i() > old(self).i(),
            match tag(
                old(self).s(),
                old(self).i(),
                old(self).ctx(nesting_level, parent_arg_type, false),
            ) {
                Ok((element, end)) => r matches Ok(e) && e@ == element && final(self).i() == end,
                Err(failure) => r matches Err(e) && e@ == error_view(old(self).s(), failure),
            },
        decreases old(self).s().len() - old(self).i(), 3int,
    {
        let start_position = self.position();
        let ghost s = self.s();
        let ghost from = self.i();
        let ghost ctx = self.ctx(nesting_level, parent_arg_type, false);
        proof {
            reveal(tag);
            reveal(message);
        }
        self.cursor.bump();
        let tag_name = self.parse_tag_name();
        proof {
            lemma_name_bound(s, from + 2);
            lemma_skip_space_bounds(s, self.i());
        }
        self.cursor.bump_space();
        let ghost close = self.i();
        proof {
            reveal_strlit("/>");
            reveal_strlit(">");
            reveal_strlit("</");
            lemma_prefix_two(s, close, "/>"@, '/', '>');
            lemma_prefix_one(s, close, ">"@, '>');
            self.cursor.lemma_position();
        }
        if self.cursor.bump_if("/>") {
            let children: Vec<AstElement<'s>> = Vec::new();
            proof {
                assert(ast_view(&children) =~= Seq::<ElementView>::empty());
            }
            Ok(
                AstElement::Tag {
                    name: tag_name,
                    span: Span::new(start_position, self.position()),
                    children,
                },
            )
        } else if self.cursor.bump_if(">") {
            proof {
                assert(ctx.tag_body() == self.ctx(
                    (nesting_level + 1) as usize,
                    parent_arg_type,
                    true,
                ));
            }
            let children = match self.parse_message(nesting_level + 1, parent_arg_type, true) {
                Ok(children) => children,
                Err(e) => {
                    return Err(e);
                },
            };
            let end_tag_start_position = self.position();
            let ghost end = self.i();
            proof {
                reveal_strlit("</");
                lemma_prefix_two(s, end, "</"@, '<', '/');
            }
            if self.cursor.bump_if("</") {
                if self.cursor.is_eof() {
                    return Err(
                        self.error(
                            ErrorKind::InvalidTag,
                            Span::new(end_tag_start_position, self.position()),
                        ),
                    );
                }
                if !is_ascii_lowercase(self.cursor.char()) {
                    return Err(
                        self.error(
                            ErrorKind::InvalidTag,
                            Span::new(end_tag_start_position, self.position()),
                        ),
                    );
                }
                let closing_tag_name_start_position = self.position();
                let closing_tag_name = self.parse_tag_name();
                if !str_eq(tag_name, closing_tag_name) {
                    return Err(
                        self.error(
                            ErrorKind::UnmatchedClosingTag,
                            Span::new(closing_tag_name_start_position, self.position()),
                        ),
                    );
                }
                proof {
                    lemma_name_bound(s, end + 3);
                    lemma_skip_space_bounds(s, self.i());
                }
                self.cursor.bump_space();
                proof {
                    reveal_strlit(">");
                    lemma_prefix_one(s, self.i(), ">"@, '>');
                }
                if !self.cursor.bump_if(">") {
                    let span = Span::new(end_tag_start_position, self.position());
                    return Err(self.error(ErrorKind::InvalidTag, span));
                }
                Ok(
                    AstElement::Tag {
                        name: tag_name,
                        span: Span::new(start_position, self.position()),
                        children,
                    },
                )
            } else {
                Err(
                    self.error(
                        ErrorKind::UnclosedTag,
                        Span::new(start_position, self.position()),
                    ),
                )
            }
        } else {
            Err(self.error(ErrorKind::InvalidTag, Span::new(start_position, self.position())))
        }
    }
}

} // verus!
