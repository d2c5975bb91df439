//! The recursive-descent parser for ICU messages.
use crate::ast::{
    Ast, Error, ErrorKind, ErrorView, PluralOrSelectOption, Position, Span, ast_view, options_view,
};
use crate::cursor::Cursor;
use crate::grammar::{
    ArgType, Context, Failure, arg_type_of, argument, has_selector, literal, message, options,
    parse_result, plural_parent, tag,
};
use crate::induction::lemma_message;
use crate::laws::{error_laws, law_parse, tree_laws};
use crate::strings::str_eq;
use crate::text::{byte_len, pos_at};
use vstd::prelude::*;

mod argument;
mod choice;
mod literal;
mod message;
mod number;
mod scan;
mod style;
mod tag;

verus! {

/// How a message is parsed.
#[derive(Clone, Copy, Debug, PartialEq, Eq, Structural)]
pub struct ParserOptions {
    /// Whether `<` is text and no tag is parsed.
    pub should_ignore_tag: bool,
}

impl Default for ParserOptions {
    /// Tags are parsed.
    fn default() -> (options: ParserOptions)
        ensures
            !options.should_ignore_tag,
    {
        ParserOptions { should_ignore_tag: false }
    }
}

/// A parser for one message. It is used once: `parse` starts at the start of
/// the message.
#[derive(Clone)]
pub struct Parser<'s> {
    cursor: Cursor<'s>,
    should_ignore_tag: bool,
}

/// The error that a failure is in the message `s`.
pub open spec fn error_view(s: Seq<char>, failure: Failure) -> ErrorView {
    ErrorView { kind: failure.kind, message: s, span: failure.span }
}

/// The argument type that `name` names, if it names one.
pub fn arg_type(name: &str) -> (r: Option<ArgType>)
    ensures
        r == arg_type_of(name@),
{
    if str_eq(name, "number") {
        Some(ArgType::Number)
    } else if str_eq(name, "date") {
        Some(ArgType::Date)
    } else if str_eq(name, "time") {
        Some(ArgType::Time)
    } else if str_eq(name, "plural") {
        Some(ArgType::Plural)
    } else if str_eq(name, "selectordinal") {
        Some(ArgType::SelectOrdinal)
    } else if str_eq(name, "select") {
        Some(ArgType::Select)
    } else {
        None
    }
}

/// Whether a message is an option of a `plural` or `selectordinal` argument.
pub fn is_plural_parent(parent: Option<ArgType>) -> (b: bool)
    ensures
        b == plural_parent(parent),
{
    match parent {
        Some(ArgType::Plural) => true,
        Some(ArgType::SelectOrdinal) => true,
        _ => false,
    }
}

impl<'s> Parser<'s> {
    /// The message that the parser was made for.
    pub closed spec fn source(&self) -> Seq<char> {
        self.cursor.text@
    }

    /// The number of scalar values of the message that the parser has passed.
    pub closed spec fn index(&self) -> int {
        self.cursor.index@
    }

    /// Whether the parser takes `<` as text.
    pub closed spec fn ignores_tags(&self) -> bool {
        self.should_ignore_tag
    }

    /// The position of the parser is the one that belongs to `index`.
    pub closed spec fn wf(&self) -> bool {
        self.cursor.wf()
    }

    /// The parser is where `before` was left, with the same message and
    /// options, and no further back.
    spec fn follows(&self, before: &Parser<'s>) -> bool {
        &&& self.cursor.wf()
        &&& self.cursor.text == before.cursor.text
        &&& self.should_ignore_tag == before.should_ignore_tag
        &&& self.cursor.index@ >= before.cursor.index@
    }

    /// The message, as scalar values.
    spec fn s(&self) -> Seq<char> {
        self.cursor.text@
    }

    /// The number of scalar values before the position.
    spec fn i(&self) -> int {
        self.cursor.index@
    }

    /// The context of a message that this parser parses.
    spec fn ctx(
        &self,
        nesting_level: usize,
        parent_arg_type: Option<ArgType>,
        expecting_close_tag: bool,
    ) -> Context {
        Context {
            level: nesting_level as nat,
            parent: parent_arg_type,
            expecting_close_tag,
            ignore_tag: self.should_ignore_tag,
        }
    }

    /// Whether `message` is short enough for the parser: every line and
    /// column number of it fits the machine word.
    pub fn accepts(message: &str) -> (b: bool)
        ensures
            b == (byte_len(message@) < usize::MAX),
    {
        message.as_bytes().len() < usize::MAX
    }

    /// A parser for `message`, which `accepts` takes. Without options tags
    /// are parsed.
    pub fn new(message: &'s str, options: Option<&ParserOptions>) -> (parser: Parser<'s>)
        requires
            byte_len(message@) < usize::MAX,
        ensures
            parser.wf(),
            parser.source() == message@,
            parser.index() == 0,
            parser.ignores_tags() == match options {
                Some(o) => o.should_ignore_tag,
                None => false,
            },
    {
        let should_ignore_tag = match options {
            Some(o) => o.should_ignore_tag,
            None => false,
        };
        Parser { cursor: Cursor::new(message), should_ignore_tag }
    }

    /// The position of the parser.
    fn position(&self) -> (p: Position)
        requires
            self.cursor.wf(),
        ensures
            p == pos_at(self.s(), self.i()),
    {
        self.cursor.position
    }

    /// The error of kind `kind` at `span`, with the message.
    fn error(&self, kind: ErrorKind, span: Span) -> (e: Error)
        ensures
            e@ == error_view(self.s(), Failure { kind, span }),
    {
        Error { kind, message: self.cursor.text.to_owned(), span }
    }

    /// Parses the message: returns its elements in order, or the first error,
    /// as the grammar gives them for the message and the options. After a
    /// parse without an error the parser is at the end of the message. The
    /// tree and the error obey the laws of the parser.
    pub fn parse(&mut self) -> (r: Result<Ast<'s>, Error>)
        requires
            old(self).wf(),
            old(self).index() == 0,
        ensures
            final(self).wf(),
            final(self).source() == old(self).source(),
            final(self).ignores_tags() == old(self).ignores_tags(),
            match parse_result(old(self).source(), old(self).ignores_tags()) {
                Ok(elements) => r matches Ok(ast) && ast_view(&ast) == elements,
                Err(failure) => r matches Err(e) && e@ == error_view(old(self).source(), failure),
            },
            r is Ok ==> final(self).index() == old(self).source().len(),
            r matches Ok(ast) ==> tree_laws(
                old(self).source(),
                old(self).ignores_tags(),
                ast_view(&ast),
            ),
            r matches Err(e) ==> error_laws(
                old(self).source(),
                old(self).ignores_tags(),
                Failure { kind: e.kind, span: e.span },
            ),
    {
        proof {
            lemma_message(self.s(), 0, Context::top(self.should_ignore_tag));
            law_parse(self.s(), self.should_ignore_tag);
        }
        self.parse_message(0, None, false)
    }
}

/// Whether one of `options` has the selector `selector`.
pub fn has_option(options: &Vec<(&str, PluralOrSelectOption)>, selector: &str) -> (found: bool)
    ensures
        found == has_selector(options_view(options), selector@),
{
    let mut k: usize = 0;
    while k < options.len()
        invariant
            k <= options.len(),
            forall|j: int| 0 <= j < k ==> (#[trigger] options_view(options)[j]).0 != selector@,
        decreases options.len() - k,
    {
        if str_eq(options[k].0, selector) {
            assert(options_view(options)[k as int].0 == selector@);
            return true;
        }
        k += 1;
    }
    false
}

} // verus!

