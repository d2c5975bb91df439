//! Literal text and its quoting.
use crate::ast::{AstElement, Error, Span};
use crate::chars::is_ascii_lowercase;
use crate::cursor::has_prefix;
use crate::grammar::{
    ArgType, at_pair, bare_left_angle_at, lemma_quoted_len_bound, literal, literal_len,
    literal_value, quote_opens, quoted_len, quoted_text, unquoted_at,
};
use crate::strings::push_char;
use vstd::prelude::*;
use super::{Parser, is_plural_parent};

verus! {

impl<'s> Parser<'s> {
    /// Passes quoted text, where an apostrophe at the position opens it, and
    /// returns what it stands for: the scalar value behind the apostrophe,
    /// and what follows up to a lone apostrophe or the end of the message,
    /// with each doubled apostrophe as one.
    pub(super) fn try_parse_quote(&mut self, parent_arg_type: Option<ArgType>) -> (r: Option<String>)
        requires
            old(self).cursor.wf(),
        ensures
            final(self).follows(old(self)),
            quote_opens(old(self).s(), old(self).i(), parent_arg_type) ==> (r matches Some(text)
                && text@ == seq![old(self).s()[old(self).i() + 1]] + quoted_text(
                old(self).s(),
                old(self).i() + 2,
            ) && final(self).i() == old(self).i() + 2 + quoted_len(
                old(self).s(),
                old(self).i() + 2,
            )),
            !quote_opens(old(self).s(), old(self).i(), parent_arg_type) ==> r is None
                && final(self).i() == old(self).i(),
    {
        if self.cursor.is_eof() {
            return None;
        }
        if self.cursor.char() != '\'' {
            return None;
        }
        match self.cursor.peek() {
            Some(c) => {
                if !(c == '{' || c == '<' || c == '>' || c == '}' || (c == '#'
                    && is_plural_parent(parent_arg_type))) {
                    return None;
                }
            },
            None => {
                return None;
            },
        }
        let ghost s = self.s();
        let ghost i = self.i();
        self.cursor.bump();
        let mut value = String::new();
        push_char(&mut value, self.cursor.char());
        self.cursor.bump();
        let ghost head = value@;
        proof {
            lemma_quoted_len_bound(s, i + 2);
            assert(head =~= seq![s[i + 1]]);
        }
        loop
            invariant_except_break
                self.i() + quoted_len(s, self.i()) == i + 2 + quoted_len(s, i + 2),
                value@ + quoted_text(s, self.i()) == head + quoted_text(s, i + 2),
            invariant
                self.follows(old(self)),
                s == self.s(),
                i == old(self).i(),
                i + 2 <= self.i(),
            ensures
                self.follows(old(self)),
                self.i() == i + 2 + quoted_len(s, i + 2),
                value@ == head + quoted_text(s, i + 2),
            decreases s.len() - self.i(),
        {
            if self.cursor.is_eof() {
                proof {
                    assert(value@ + Seq::<char>::empty() =~= value@);
                }
                break ;
            }
            let c = self.cursor.char();
            let ghost before = value@;
            let ghost k = self.i();
            if c == '\'' {
                if self.cursor.peek() == Some('\'') {
                    push_char(&mut value, '\'');
                    self.cursor.bump();
                    proof {
                        assert(before.push('\'') + quoted_text(s, k + 2) =~= before + (seq!['\'']
                            + quoted_text(s, k + 2)));
                    }
                } else {
                    self.cursor.bump();
                    proof {
                        assert(value@ + Seq::<char>::empty() =~= value@);
                    }
                    break ;
                }
            } else {
                push_char(&mut value, c);
                proof {
                    assert(before.push(c) + quoted_text(s, k + 1) =~= before + (seq![c]
                        + quoted_text(s, k + 1)));
                }
            }
            self.cursor.bump();
        }
        Some(value)
    }

    /// Passes one scalar value that a literal takes as it is, and returns it.
    pub(super) fn try_parse_unquoted(&mut self, nesting_level: usize, parent_arg_type: Option<ArgType>) -> (r:
        Option<char>)
        requires
            old(self).cursor.wf(),
        ensures
            final(self).follows(old(self)),
            unquoted_at(old(self).s(), old(self).i(), nesting_level as nat, parent_arg_type) ==> r
                == Some(old(self).s()[old(self).i()]) && final(self).i() == old(self).i() + 1,
            !unquoted_at(old(self).s(), old(self).i(), nesting_level as nat, parent_arg_type) ==> r
                is None && final(self).i() == old(self).i(),
    {
        if self.cursor.is_eof() {
            return None;
        }
        let c = self.cursor.char();
        if c == '<' || c == '{' {
            None
        } else if c == '#' && is_plural_parent(parent_arg_type) {
            None
        } else if c == '}' && nesting_level > 0 {
            None
        } else {
            self.cursor.bump();
            Some(c)
        }
    }

    /// Passes a `<` that is text, and returns it.
    pub(super) fn try_parse_left_angle_bracket(&mut self) -> (r: Option<char>)
        requires
            old(self).cursor.wf(),
        ensures
            final(self).follows(old(self)),
            bare_left_angle_at(old(self).s(), old(self).i(), old(self).should_ignore_tag) ==> r
                == Some('<') && final(self).i() == old(self).i() + 1,
            !bare_left_angle_at(old(self).s(), old(self).i(), old(self).should_ignore_tag) ==> r
                is None && final(self).i() == old(self).i(),
    {
        if self.cursor.is_eof() {
            return None;
        }
        if self.cursor.char() != '<' {
            return None;
        }
        let tag_follows = match self.cursor.peek() {
            Some(c) => is_ascii_lowercase(c) || c == '/',
            None => false,
        };
        if self.should_ignore_tag || !tag_follows {
            self.cursor.bump();
            Some('<')
        } else {
            None
        }
    }

    /// Parses the literal at the position: text up to where an argument, a
    /// tag, the number sign of a plural option or the end of the enclosing
    /// message begins, with the quoting resolved.
    pub(super) fn parse_literal(&mut self, nesting_level: usize, parent_arg_type: Option<ArgType>) -> (r:
        Result<AstElement<'s>, Error>)
        requires
            old(self).cursor.wf(),
        ensures
            final(self).follows(old(self)),
            r matches Ok(element) && element@ == literal(
                old(self).s(),
                old(self).i(),
                nesting_level as nat,
                parent_arg_type,
                old(self).should_ignore_tag,
            ).0,
            final(self).i() == literal(
                old(self).s(),
                old(self).i(),
                nesting_level as nat,
                parent_arg_type,
                old(self).should_ignore_tag,
            ).1,
    {
        let start = self.position();
        let ghost s = self.s();
        let ghost from = self.i();
        let ghost level = nesting_level as nat;
        let ghost ignore = self.should_ignore_tag;
        let mut value = String::new();
        loop
            invariant
                self.follows(old(self)),
                s == self.s(),
                from == old(self).i(),
                level == nesting_level as nat,
                ignore == self.should_ignore_tag,
                self.i() + literal_len(s, self.i(), level, parent_arg_type, ignore) == from
                    + literal_len(s, from, level, parent_arg_type, ignore),
                value@ + literal_value(s, self.i(), level, parent_arg_type, ignore)
                    == literal_value(s, from, level, parent_arg_type, ignore),
            ensures
                self.follows(old(self)),
                self.i() == from + literal_len(s, from, level, parent_arg_type, ignore),
                value@ == literal_value(s, from, level, parent_arg_type, ignore),
            decreases s.len() - self.i(),
        {
            let ghost k = self.i();
            let ghost before = value@;
            proof {
                reveal_strlit("''");
                if has_prefix(s, k, "''"@) {
                    assert(s.subrange(k, k + 2)[0] == '\'');
                    assert(s.subrange(k, k + 2)[1] == '\'');
                }
                if at_pair(s, k, '\'', '\'') {
                    assert(s.subrange(k, k + 2) =~= "''"@);
                }
            }
            if self.cursor.bump_if("''") {
                push_char(&mut value, '\'');
                proof {
                    let rest = literal_value(s, k + 2, level, parent_arg_type, ignore);
                    assert(before.push('\'') + rest =~= before + (seq!['\''] + rest));
                }
            } else if let Some(fragment) = self.try_parse_quote(parent_arg_type) {
                value.append(fragment.as_str());
                proof {
                    let q = quoted_len(s, k + 2);
                    let rest = literal_value(s, k + 2 + q, level, parent_arg_type, ignore);
                    assert((before + fragment@) + rest =~= before + (seq![s[k + 1]] + quoted_text(
                        s,
                        k + 2,
                    ) + rest));
                }
            } else if let Some(fragment) = self.try_parse_unquoted(nesting_level, parent_arg_type) {
                push_char(&mut value, fragment);
                proof {
                    let rest = literal_value(s, k + 1, level, parent_arg_type, ignore);
                    assert(before.push(fragment) + rest =~= before + (seq![fragment] + rest));
                }
            } else if let Some(fragment) = self.try_parse_left_angle_bracket() {
                push_char(&mut value, fragment);
                proof {
                    let rest = literal_value(s, k + 1, level, parent_arg_type, ignore);
                    assert(before.push(fragment) + rest =~= before + (seq![fragment] + rest));
                }
            } else {
                proof {
                    assert(value@ + Seq::<char>::empty() =~= value@);
                }
                break ;
            }
        }
        let span = Span::new(start, self.position());
        Ok(AstElement::Literal { span, value })
    }
}

} // verus!
