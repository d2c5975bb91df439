//! The grammar of ICU messages, as functions from a text and an index into it
//! to what the parser finds there. The text is a sequence of scalar values and
//! an index counts scalar values; positions in bytes, lines and columns follow
//! from the index.
use crate::ast::{
    DateTimeArgStyleView, DateTimeSkeletonView, ElementView, ErrorKind, NumberArgStyleView,
    NumberSkeletonTokenView, NumberSkeletonView, OptionView, PluralType, Span,
};
use crate::chars::{
    ascii_lowercase, decimal_digit, digit_value, potential_element_name_char, white_space,
};
use crate::cursor::{find_char, lemma_find_char_bounds, lemma_skip_space_bounds, skip_space};
use crate::pattern_syntax::pattern_syntax;
use crate::text::span_at;
use vstd::prelude::*;

verus! {

/// Whether options of `plural` and `select` arguments must hold an `other`
/// clause.
pub const REQUIRES_OTHER_CLAUSE: bool = false;

/// The type of an argument, written behind its name.
#[derive(Clone, Copy, Debug, PartialEq, Eq, Structural)]
pub enum ArgType {
    Number,
    Date,
    Time,
    Plural,
    SelectOrdinal,
    Select,
}

/// Why and where a parse stopped.
pub struct Failure {
    pub kind: ErrorKind,
    pub span: Span,
}

/// What is found at an index: a value and the index behind it, or a failure.
pub type Parsed<T> = Result<(T, int), Failure>;

/// The failure of kind `kind` at `span`.
pub open spec fn fail<T>(kind: ErrorKind, span: Span) -> Parsed<T> {
    Err(Failure { kind, span })
}

/// Whether index `i` of `s` holds `c`.
pub open spec fn at(s: Seq<char>, i: int, c: char) -> bool {
    0 <= i < s.len() && s[i] == c
}

/// Whether the indices `i` and `i + 1` of `s` hold `c` and `d`.
pub open spec fn at_pair(s: Seq<char>, i: int, c: char, d: char) -> bool {
    0 <= i && i + 1 < s.len() && s[i] == c && s[i + 1] == d
}

/// The argument type that an identifier names, if it names one.
pub open spec fn arg_type_of(name: Seq<char>) -> Option<ArgType> {
    if name == "number"@ {
        Some(ArgType::Number)
    } else if name == "date"@ {
        Some(ArgType::Date)
    } else if name == "time"@ {
        Some(ArgType::Time)
    } else if name == "plural"@ {
        Some(ArgType::Plural)
    } else if name == "selectordinal"@ {
        Some(ArgType::SelectOrdinal)
    } else if name == "select"@ {
        Some(ArgType::Select)
    } else {
        None
    }
}

/// Whether a message is an option of a `plural` or `selectordinal` argument,
/// where `#` stands for the number.
pub open spec fn plural_parent(parent: Option<ArgType>) -> bool {
    parent == Some(ArgType::Plural) || parent == Some(ArgType::SelectOrdinal)
}

/// The length of the identifier at index `i`: the scalar values up to the
/// first that is whitespace or pattern syntax.
pub open spec fn identifier_run(s: Seq<char>, i: int) -> nat
    decreases s.len() - i,
{
    if 0 <= i < s.len() && !white_space(s[i]) && !pattern_syntax(s[i]) {
        1 + identifier_run(s, i + 1)
    } else {
        0
    }
}

/// The index behind the identifier at index `i`.
pub open spec fn identifier_end(s: Seq<char>, i: int) -> int {
    i + identifier_run(s, i)
}

/// The number of scalar values from index `i` on that may stand in a tag
/// name.
pub open spec fn name_run(s: Seq<char>, i: int) -> nat
    decreases s.len() - i,
{
    if 0 <= i < s.len() && potential_element_name_char(s[i]) {
        1 + name_run(s, i + 1)
    } else {
        0
    }
}

/// The index behind the tag name whose first letter is at index `i`.
pub open spec fn tag_name_end(s: Seq<char>, i: int) -> int {
    i + 1 + name_run(s, i + 1)
}

/// The number of ASCII digits from index `i` on.
pub open spec fn digit_run(s: Seq<char>, i: int) -> nat
    decreases s.len() - i,
{
    if 0 <= i < s.len() && decimal_digit(s[i]) {
        1 + digit_run(s, i + 1)
    } else {
        0
    }
}

/// The number that a sequence of ASCII digits stands for in base ten.
pub open spec fn decimal_value(digits: Seq<char>) -> nat
    decreases digits.len(),
{
    if digits.len() == 0 {
        0
    } else {
        (decimal_value(digits.drop_last()) * 10 + digit_value(digits.last())) as nat
    }
}

/// The index behind an optional sign at index `i`.
pub open spec fn sign_end(s: Seq<char>, i: int) -> int {
    if at(s, i, '+') || at(s, i, '-') {
        i + 1
    } else {
        i
    }
}

/// The index behind the optional sign and the digits at index `i`.
pub open spec fn decimal_end(s: Seq<char>, i: int) -> int {
    sign_end(s, i) + digit_run(s, sign_end(s, i))
}

/// A signed decimal integer at index `i`: an optional sign and at least one
/// digit. Without a digit it fails with `expect` at the end of the text and
/// with `invalid` elsewhere; a number beyond 64 bits fails with `invalid`.
pub open spec fn decimal_integer(s: Seq<char>, i: int, expect: ErrorKind, invalid: ErrorKind)
    -> Parsed<i64> {
    let first = sign_end(s, i);
    let end = decimal_end(s, i);
    let span = span_at(s, i, end);
    let value = decimal_value(s.subrange(first, end));
    if end == first {
        if end >= s.len() {
            fail(expect, span)
        } else {
            fail(invalid, span)
        }
    } else if value > i64::MAX {
        fail(invalid, span)
    } else if at(s, i, '-') {
        Ok(((-value) as i64, end))
    } else {
        Ok((value as i64, end))
    }
}

/// Whether an apostrophe at index `i` opens quoted text: it does before `{`,
/// `<`, `>` and `}`, and before `#` in an option of a plural argument.
pub open spec fn quote_opens(s: Seq<char>, i: int, parent: Option<ArgType>) -> bool {
    &&& 0 <= i
    &&& i + 1 < s.len()
    &&& s[i] == '\''
    &&& (s[i + 1] == '{' || s[i + 1] == '<' || s[i + 1] == '>' || s[i + 1] == '}' || (s[i + 1]
        == '#' && plural_parent(parent)))
}

/// The length in the text of quoted text that goes on at index `i`, up to
/// and with the lone apostrophe that closes it, or up to the end of the text.
pub open spec fn quoted_len(s: Seq<char>, i: int) -> nat
    decreases s.len() - i,
{
    if !(0 <= i < s.len()) {
        0
    } else if s[i] == '\'' {
        if at(s, i + 1, '\'') {
            2 + quoted_len(s, i + 2)
        } else {
            1
        }
    } else {
        1 + quoted_len(s, i + 1)
    }
}

/// Quoted text ends within the text.
pub proof fn lemma_quoted_len_bound(s: Seq<char>, i: int)
    requires
        0 <= i <= s.len(),
    ensures
        i + quoted_len(s, i) <= s.len(),
    decreases s.len() - i,
{
    if i < s.len() {
        if s[i] == '\'' {
            if at(s, i + 1, '\'') {
                lemma_quoted_len_bound(s, i + 2);
            }
        } else {
            lemma_quoted_len_bound(s, i + 1);
        }
    }
}

/// What quoted text that goes on at index `i` stands for: itself, with each
/// doubled apostrophe as one.
pub open spec fn quoted_text(s: Seq<char>, i: int) -> Seq<char>
    decreases s.len() - i,
{
    if !(0 <= i < s.len()) {
        seq![]
    } else if s[i] == '\'' {
        if at(s, i + 1, '\'') {
            seq!['\''] + quoted_text(s, i + 2)
        } else {
            seq![]
        }
    } else {
        seq![s[i]] + quoted_text(s, i + 1)
    }
}

/// Whether index `i` holds a scalar value that a literal takes as it is.
pub open spec fn unquoted_at(s: Seq<char>, i: int, level: nat, parent: Option<ArgType>) -> bool {
    &&& 0 <= i < s.len()
    &&& s[i] != '<'
    &&& s[i] != '{'
    &&& !(s[i] == '#' && plural_parent(parent))
    &&& !(s[i] == '}' && level > 0)
}

/// Whether index `i` holds a `<` that is text: every `<` is where tags are
/// ignored, and else one that neither a lower case letter nor `/` follows.
pub open spec fn bare_left_angle_at(s: Seq<char>, i: int, ignore_tag: bool) -> bool {
    &&& at(s, i, '<')
    &&& (ignore_tag || !(i + 1 < s.len() && (ascii_lowercase(s[i + 1]) || s[i + 1] == '/')))
}

/// The length in the text of the literal at index `i`.
pub open spec fn literal_len(
    s: Seq<char>,
    i: int,
    level: nat,
    parent: Option<ArgType>,
    ignore_tag: bool,
) -> nat
    decreases s.len() - i,
{
    if at_pair(s, i, '\'', '\'') {
        2 + literal_len(s, i + 2, level, parent, ignore_tag)
    } else if quote_opens(s, i, parent) {
        proof {
            lemma_quoted_len_bound(s, i + 2);
        }
        2 + quoted_len(s, i + 2) + literal_len(
            s,
            i + 2 + quoted_len(s, i + 2),
            level,
            parent,
            ignore_tag,
        )
    } else if unquoted_at(s, i, level, parent) || bare_left_angle_at(s, i, ignore_tag) {
        1 + literal_len(s, i + 1, level, parent, ignore_tag)
    } else {
        0
    }
}

/// The value of the literal at index `i`: its text with the quoting resolved.
pub open spec fn literal_value(
    s: Seq<char>,
    i: int,
    level: nat,
    parent: Option<ArgType>,
    ignore_tag: bool,
) -> Seq<char>
    decreases s.len() - i,
{
    if at_pair(s, i, '\'', '\'') {
        seq!['\''] + literal_value(s, i + 2, level, parent, ignore_tag)
    } else if quote_opens(s, i, parent) {
        proof {
            lemma_quoted_len_bound(s, i + 2);
        }
        seq![s[i + 1]] + quoted_text(s, i + 2) + literal_value(
            s,
            i + 2 + quoted_len(s, i + 2),
            level,
            parent,
            ignore_tag,
        )
    } else if unquoted_at(s, i, level, parent) || bare_left_angle_at(s, i, ignore_tag) {
        seq![s[i]] + literal_value(s, i + 1, level, parent, ignore_tag)
    } else {
        seq![]
    }
}

/// The literal at index `i`.
pub open spec fn literal(
    s: Seq<char>,
    i: int,
    level: nat,
    parent: Option<ArgType>,
    ignore_tag: bool,
) -> (ElementView, int) {
    let end = i + literal_len(s, i, level, parent, ignore_tag);
    (
        ElementView::Literal {
            value: literal_value(s, i, level, parent, ignore_tag),
            span: span_at(s, i, end),
        },
        end,
    )
}

/// The index of the `}` that ends the style at index `i`, or the end of the
/// text. `depth` counts the braces that are open within the style. Text
/// between apostrophes is passed over; an apostrophe without a partner fails.
pub open spec fn arg_style_end(s: Seq<char>, i: int, depth: nat) -> Result<int, Failure>
    decreases s.len() - i,
{
    if !(0 <= i < s.len()) {
        Ok(i)
    } else if s[i] == '\'' {
        let close = find_char(s, i + 1, '\'');
        if close >= s.len() {
            Err(
                Failure {
                    kind: ErrorKind::UnclosedQuoteInArgumentStyle,
                    span: span_at(s, i, s.len() as int),
                },
            )
        } else {
            arg_style_end(s, close + 1, depth)
        }
    } else if s[i] == '{' {
        arg_style_end(s, i + 1, depth + 1)
    } else if s[i] == '}' {
        if depth > 0 {
            arg_style_end(s, i + 1, (depth - 1) as nat)
        } else {
            Ok(i)
        }
    } else {
        arg_style_end(s, i + 1, depth)
    }
}

/// The length of `t` without the whitespace at its end.
pub open spec fn trimmed_len(t: Seq<char>) -> nat
    decreases t.len(),
{
    if t.len() > 0 && white_space(t.last()) {
        trimmed_len(t.drop_last())
    } else {
        t.len()
    }
}

/// A text is no shorter without the whitespace at its end.
pub proof fn lemma_trimmed_len_bound(t: Seq<char>)
    ensures
        trimmed_len(t) <= t.len(),
    decreases t.len(),
{
    if t.len() > 0 && white_space(t.last()) {
        lemma_trimmed_len_bound(t.drop_last());
    }
}

/// `t` without the whitespace at its end.
pub open spec fn trim_end(t: Seq<char>) -> Seq<char> {
    t.subrange(0, trimmed_len(t) as int)
}

/// `t` without the whitespace at its start.
pub open spec fn trim_start(t: Seq<char>) -> Seq<char> {
    t.subrange(skip_space(t, 0), t.len() as int)
}

/// The number of scalar values from index `i` on before the first
/// whitespace.
pub open spec fn word_run(t: Seq<char>, i: int) -> nat
    decreases t.len() - i,
{
    if 0 <= i < t.len() && !white_space(t[i]) {
        1 + word_run(t, i + 1)
    } else {
        0
    }
}

/// A word ends within the text, and is not empty where it begins with a
/// scalar value that is no whitespace.
pub proof fn lemma_word_run_bound(t: Seq<char>, i: int)
    requires
        0 <= i <= t.len(),
    ensures
        i + word_run(t, i) <= t.len(),
        i < t.len() && !white_space(t[i]) ==> word_run(t, i) > 0,
    decreases t.len() - i,
{
    if i < t.len() && !white_space(t[i]) {
        lemma_word_run_bound(t, i + 1);
    }
}

/// The options of the skeleton token `w` from the `/` at index `k` on: the
/// text between each `/` and the next. An empty option is an error.
pub open spec fn token_options(w: Seq<char>, k: int) -> Result<Seq<Seq<char>>, ErrorKind>
    decreases w.len() - k,
{
    if !(0 <= k < w.len()) {
        Ok(seq![])
    } else {
        let end = find_char(w, k + 1, '/');
        proof {
            lemma_find_char_bounds(w, k + 1, '/');
        }
        if end == k + 1 {
            Err(ErrorKind::InvalidNumberSkeleton)
        } else {
            match token_options(w, end) {
                Err(kind) => Err(kind),
                Ok(rest) => Ok(seq![w.subrange(k + 1, end)] + rest),
            }
        }
    }
}

/// The skeleton token that the word `w` is: the stem before the first `/`,
/// and the options behind it.
pub open spec fn skeleton_token(w: Seq<char>) -> Result<NumberSkeletonTokenView, ErrorKind> {
    let k = find_char(w, 0, '/');
    match token_options(w, k) {
        Err(kind) => Err(kind),
        Ok(options) => Ok(NumberSkeletonTokenView { stem: w.subrange(0, k), options }),
    }
}

/// The tokens of the skeleton `t` from index `i` on: one for each word
/// between whitespace.
pub open spec fn skeleton_tokens(t: Seq<char>, i: int) -> Result<
    Seq<NumberSkeletonTokenView>,
    ErrorKind,
>
    decreases t.len() - i,
{
    if !(0 <= i <= t.len()) {
        Ok(seq![])
    } else {
        let start = skip_space(t, i);
        let end = start + word_run(t, start);
        proof {
            lemma_skip_space_bounds(t, i);
            lemma_word_run_bound(t, start);
        }
        if start >= t.len() {
            Ok(seq![])
        } else {
            match skeleton_token(t.subrange(start, end)) {
                Err(kind) => Err(kind),
                Ok(token) => match skeleton_tokens(t, end) {
                    Err(kind) => Err(kind),
                    Ok(rest) => Ok(seq![token] + rest),
                },
            }
        }
    }
}

/// The number skeleton that the text `t` is. `span` is handed on.
pub open spec fn number_skeleton(t: Seq<char>, span: Span) -> Result<NumberSkeletonView, ErrorKind> {
    if t.len() == 0 {
        Err(ErrorKind::ExpectNumberSkeleton)
    } else {
        match skeleton_tokens(t, 0) {
            Err(kind) => Err(kind),
            Ok(tokens) => Ok(NumberSkeletonView { tokens, span }),
        }
    }
}

/// Whether a style is a skeleton: it is where it begins with `::`.
pub open spec fn is_skeleton(style: Seq<char>) -> bool {
    at_pair(style, 0, ':', ':')
}

/// The skeleton in a style that begins with `::`: what follows, without the
/// whitespace at its start.
pub open spec fn skeleton_of(style: Seq<char>) -> Seq<char> {
    style.subrange(skip_space(style, 2), style.len() as int)
}

/// The element that a `number`, `date` or `time` argument is, with its name,
/// span and style. A style that begins with `::` is a skeleton.
#[verifier::opaque]
pub open spec fn styled_argument(
    arg_type: ArgType,
    name: Seq<char>,
    span: Span,
    style: Option<(Seq<char>, Span)>,
) -> Result<ElementView, Failure> {
    match style {
        None => Ok(
            match arg_type {
                ArgType::Number => ElementView::Number { name, span, style: None },
                ArgType::Date => ElementView::Date { name, span, style: None },
                _ => ElementView::Time { name, span, style: None },
            },
        ),
        Some((text, style_span)) => if is_skeleton(text) {
            match arg_type {
                ArgType::Number => match number_skeleton(skeleton_of(text), style_span) {
                    Err(kind) => Err(Failure { kind, span: style_span }),
                    Ok(skeleton) => Ok(
                        ElementView::Number {
                            name,
                            span,
                            style: Some(NumberArgStyleView::Skeleton(skeleton)),
                        },
                    ),
                },
                _ => if skeleton_of(text).len() == 0 {
                    Err(Failure { kind: ErrorKind::ExpectDateTimeSkeleton, span })
                } else {
                    let style = Some(
                        DateTimeArgStyleView::Skeleton(
                            DateTimeSkeletonView { pattern: skeleton_of(text), span: style_span },
                        ),
                    );
                    if arg_type == ArgType::Date {
                        Ok(ElementView::Date { name, span, style })
                    } else {
                        Ok(ElementView::Time { name, span, style })
                    }
                },
            }
        } else {
            Ok(
                match arg_type {
                    ArgType::Number => ElementView::Number {
                        name,
                        span,
                        style: Some(NumberArgStyleView::Style(text)),
                    },
                    ArgType::Date => ElementView::Date {
                        name,
                        span,
                        style: Some(DateTimeArgStyleView::Style(text)),
                    },
                    _ => ElementView::Time {
                        name,
                        span,
                        style: Some(DateTimeArgStyleView::Style(text)),
                    },
                },
            )
        },
    }
}

/// The end of a `number`, `date` or `time` argument: the `}` at index `i`
/// closes the argument that `{` opened at index `open`.
#[verifier::opaque]
pub open spec fn close_simple_argument(
    s: Seq<char>,
    i: int,
    arg_type: ArgType,
    name: Seq<char>,
    open: int,
    style: Option<(Seq<char>, Span)>,
) -> Parsed<ElementView> {
    if !at(s, i, '}') {
        fail(ErrorKind::ExpectArgumentClosingBrace, span_at(s, open, i))
    } else {
        match styled_argument(arg_type, name, span_at(s, open, i + 1), style) {
            Err(failure) => Err(failure),
            Ok(element) => Ok((element, i + 1)),
        }
    }
}

/// A `number`, `date` or `time` argument from behind its type, at index `i`,
/// on: an optional `,` and style, and the closing `}`.
#[verifier::opaque]
pub open spec fn simple_argument(
    s: Seq<char>,
    i: int,
    arg_type: ArgType,
    name: Seq<char>,
    open: int,
) -> Parsed<ElementView> {
    let comma = skip_space(s, i);
    if at(s, comma, ',') {
        let start = skip_space(s, comma + 1);
        match arg_style_end(s, start, 0) {
            Err(failure) => Err(failure),
            Ok(end) => {
                let style = trim_end(s.subrange(start, end));
                if style.len() == 0 {
                    fail(ErrorKind::ExpectArgumentStyle, span_at(s, end, end))
                } else {
                    close_simple_argument(
                        s,
                        end,
                        arg_type,
                        name,
                        open,
                        Some((style, span_at(s, start, end))),
                    )
                }
            },
        }
    } else {
        close_simple_argument(s, comma, arg_type, name, open, None)
    }
}

/// Where a message stands: how deep it is nested in arguments and tags, the
/// type of the argument whose option it is, whether a tag is open around it,
/// and whether the parser takes tags as text.
pub struct Context {
    pub level: nat,
    pub parent: Option<ArgType>,
    pub expecting_close_tag: bool,
    pub ignore_tag: bool,
}

impl Context {
    /// The context of a whole message.
    pub open spec fn top(ignore_tag: bool) -> Context {
        Context { level: 0, parent: None, expecting_close_tag: false, ignore_tag }
    }

    /// The context of an option of an argument of type `arg_type`.
    pub open spec fn option_of(self, arg_type: ArgType) -> Context {
        Context { level: self.level + 1, parent: Some(arg_type), ..self }
    }

    /// The context of an argument: the type of the argument around it does
    /// not reach into it.
    pub open spec fn in_argument(self) -> Context {
        Context { parent: None, ..self }
    }

    /// The context of what stands between an opening and a closing tag.
    pub open spec fn tag_body(self) -> Context {
        Context { level: self.level + 1, expecting_close_tag: true, ..self }
    }
}

/// An identifier ends within the text.
pub proof fn lemma_identifier_bound(s: Seq<char>, i: int)
    requires
        0 <= i <= s.len(),
    ensures
        i <= identifier_end(s, i) <= s.len(),
    decreases s.len() - i,
{
    if i < s.len() && !white_space(s[i]) && !pattern_syntax(s[i]) {
        lemma_identifier_bound(s, i + 1);
    }
}

/// A tag name ends within the text.
pub proof fn lemma_name_bound(s: Seq<char>, i: int)
    requires
        0 <= i <= s.len(),
    ensures
        i + name_run(s, i) <= s.len(),
    decreases s.len() - i,
{
    if i < s.len() && potential_element_name_char(s[i]) {
        lemma_name_bound(s, i + 1);
    }
}

/// Digits end within the text.
pub proof fn lemma_digit_bound(s: Seq<char>, i: int)
    requires
        0 <= i <= s.len(),
    ensures
        i + digit_run(s, i) <= s.len(),
    decreases s.len() - i,
{
    if i < s.len() && decimal_digit(s[i]) {
        lemma_digit_bound(s, i + 1);
    }
}

/// A sign and digits end within the text.
pub proof fn lemma_decimal_bound(s: Seq<char>, i: int)
    requires
        0 <= i <= s.len(),
    ensures
        i <= sign_end(s, i) <= decimal_end(s, i) <= s.len(),
{
    lemma_digit_bound(s, sign_end(s, i));
}

/// Whether a closing tag begins at index `i`: `</`, where tags are not
/// ignored.
pub open spec fn closing_tag_at(s: Seq<char>, i: int, ignore_tag: bool) -> bool {
    !ignore_tag && at_pair(s, i, '<', '/')
}

/// Whether an opening tag begins at index `i`: `<` and a lower case letter,
/// where tags are not ignored.
pub open spec fn opening_tag_at(s: Seq<char>, i: int, ignore_tag: bool) -> bool {
    !ignore_tag && at(s, i, '<') && i + 1 < s.len() && ascii_lowercase(s[i + 1])
}

/// Whether the message that goes on at index `i` ends there: at the end of
/// the text, at a `}` in a nested message, and at a closing tag where one is
/// expected.
pub open spec fn message_ends_at(s: Seq<char>, i: int, ctx: Context) -> bool {
    ||| !(0 <= i < s.len())
    ||| (s[i] == '}' && ctx.level > 0)
    ||| (closing_tag_at(s, i, ctx.ignore_tag) && ctx.expecting_close_tag)
}

/// Whether one of `options` has the selector `selector`.
pub open spec fn has_selector(options: Seq<(Seq<char>, OptionView)>, selector: Seq<char>) -> bool {
    exists|k: int| 0 <= k < options.len() && (#[trigger] options[k]).0 == selector
}

/// Whether an option begins at index `i`: an identifier, or `=` in a plural
/// argument.
pub open spec fn selector_at(s: Seq<char>, i: int, arg_type: ArgType) -> bool {
    identifier_end(s, i) > i || (arg_type != ArgType::Select && at(s, i, '='))
}

/// The index behind the selector at index `i`: behind the identifier, or
/// behind `=` and its number.
pub open spec fn selector_end(s: Seq<char>, i: int) -> int {
    if identifier_end(s, i) > i {
        identifier_end(s, i)
    } else {
        decimal_end(s, i + 1)
    }
}

/// What a list of options ends in at index `i`, where no further selector
/// stands: the options, if there is one.
pub open spec fn options_done(
    s: Seq<char>,
    i: int,
    options: Seq<(Seq<char>, OptionView)>,
    arg_type: ArgType,
) -> Parsed<Seq<(Seq<char>, OptionView)>> {
    if options.len() == 0 {
        fail(
            if arg_type == ArgType::Select {
                ErrorKind::ExpectSelectArgumentSelector
            } else {
                ErrorKind::ExpectPluralArgumentSelector
            },
            span_at(s, i, i),
        )
    } else if REQUIRES_OTHER_CLAUSE && !has_selector(options, "other"@) {
        fail(ErrorKind::MissingOtherClause, span_at(s, i, i))
    } else {
        Ok((options, i))
    }
}

/// The elements of the message that goes on at index `i`, up to where it
/// ends. Each element takes at least one scalar value, as
/// `induction::lemma_element` proves: the branch for one that takes none is
/// never reached.
#[verifier::opaque]
pub open spec fn message(s: Seq<char>, i: int, ctx: Context) -> Parsed<Seq<ElementView>>
    decreases s.len() - i, 5int,
{
    if message_ends_at(s, i, ctx) {
        Ok((seq![], i))
    } else if closing_tag_at(s, i, ctx.ignore_tag) {
        fail(ErrorKind::UnmatchedClosingTag, span_at(s, i, i))
    } else {
        match element(s, i, ctx) {
            Err(failure) => Err(failure),
            Ok((first, next)) => if i < next <= s.len() {
                match message(s, next, ctx) {
                    Err(failure) => Err(failure),
                    Ok((rest, end)) => Ok((seq![first] + rest, end)),
                }
            } else {
                Ok((seq![first], next))
            },
        }
    }
}

/// The element at index `i` of a message that does not end there: an
/// argument at `{`, the number sign in a plural option, a tag, or a literal.
#[verifier::opaque]
pub open spec fn element(s: Seq<char>, i: int, ctx: Context) -> Parsed<ElementView>
    decreases s.len() - i, 4int,
{
    if at(s, i, '{') {
        argument(s, i, ctx.in_argument())
    } else if at(s, i, '#') && plural_parent(ctx.parent) {
        Ok((ElementView::Pound(span_at(s, i, i + 1)), i + 1))
    } else if opening_tag_at(s, i, ctx.ignore_tag) {
        tag(s, i, ctx)
    } else {
        Ok(literal(s, i, ctx.level, ctx.parent, ctx.ignore_tag))
    }
}

/// The argument that `{` opens at index `i`.
#[verifier::opaque]
pub open spec fn argument(s: Seq<char>, i: int, ctx: Context) -> Parsed<ElementView>
    decreases s.len() - i, 3int,
{
    let start = skip_space(s, i + 1);
    let end = identifier_end(s, start);
    let next = skip_space(s, end);
    if !(0 <= i < s.len()) {
        fail(ErrorKind::MalformedArgument, span_at(s, i, i))
    } else if start >= s.len() {
        fail(ErrorKind::ExpectArgumentClosingBrace, span_at(s, i, start))
    } else if s[start] == '}' {
        fail(ErrorKind::EmptyArgument, span_at(s, i, start + 1))
    } else if end == start {
        fail(ErrorKind::MalformedArgument, span_at(s, i, end))
    } else if next >= s.len() {
        fail(ErrorKind::ExpectArgumentClosingBrace, span_at(s, i, next))
    } else if s[next] == '}' {
        Ok((ElementView::Argument { name: s.subrange(start, end), span: span_at(s, i, next + 1) }, next + 1))
    } else if s[next] == ',' {
        let arg_type = skip_space(s, next + 1);
        proof {
            lemma_skip_space_bounds(s, next + 1);
        }
        if arg_type >= s.len() {
            fail(ErrorKind::ExpectArgumentClosingBrace, span_at(s, i, arg_type))
        } else {
            argument_options(s, arg_type, s.subrange(start, end), i, ctx)
        }
    } else {
        fail(ErrorKind::MalformedArgument, span_at(s, i, next))
    }
}

/// An argument from its type, at index `i`, on. `name` is its name and
/// `open` the index of its `{`.
#[verifier::opaque]
pub open spec fn argument_options(
    s: Seq<char>,
    i: int,
    name: Seq<char>,
    open: int,
    ctx: Context,
) -> Parsed<ElementView>
    decreases s.len() - i, 2int,
{
    let end = identifier_end(s, i);
    if !(0 <= i <= s.len()) || end == i {
        fail(ErrorKind::ExpectArgumentType, span_at(s, i, end))
    } else {
        proof {
            lemma_identifier_bound(s, i);
        }
        match arg_type_of(s.subrange(i, end)) {
            None => fail(ErrorKind::InvalidArgumentType, span_at(s, i, end)),
            Some(arg_type) => match arg_type {
                ArgType::Number | ArgType::Date | ArgType::Time => simple_argument(
                    s,
                    end,
                    arg_type,
                    name,
                    open,
                ),
                _ => choice_argument(s, end, arg_type, name, open, ctx),
            },
        }
    }
}

/// A `plural`, `selectordinal` or `select` argument from behind its type, at
/// index `i`, on: `,`, in a plural argument an optional `offset:` and number,
/// the options, and the closing `}`.
#[verifier::opaque]
pub open spec fn choice_argument(
    s: Seq<char>,
    i: int,
    arg_type: ArgType,
    name: Seq<char>,
    open: int,
    ctx: Context,
) -> Parsed<ElementView>
    decreases s.len() - i, 1int,
{
    let comma = skip_space(s, i);
    let first = skip_space(s, comma + 1);
    let first_end = identifier_end(s, first);
    let number = skip_space(s, first_end + 1);
    if !(0 <= i <= s.len()) || !at(s, comma, ',') {
        fail(ErrorKind::ExpectSelectArgumentOptions, span_at(s, i, i))
    } else if arg_type != ArgType::Select && s.subrange(first, first_end) == "offset"@ {
        if !at(s, first_end, ':') {
            fail(ErrorKind::ExpectPluralArgumentOffsetValue, span_at(s, first_end, first_end))
        } else {
            match decimal_integer(
                s,
                number,
                ErrorKind::ExpectPluralArgumentOffsetValue,
                ErrorKind::InvalidPluralArgumentOffsetValue,
            ) {
                Err(failure) => Err(failure),
                Ok((offset, _)) => {
                    proof {
                        lemma_skip_space_bounds(s, first_end + 1);
                        lemma_decimal_bound(s, number);
                        lemma_skip_space_bounds(s, decimal_end(s, number));
                    }
                    choice_options(
                        s,
                        skip_space(s, decimal_end(s, number)),
                        offset,
                        arg_type,
                        name,
                        open,
                        ctx,
                    )
                },
            }
        }
    } else {
        proof {
            lemma_skip_space_bounds(s, comma + 1);
        }
        choice_options(s, first, 0, arg_type, name, open, ctx)
    }
}

/// A `plural`, `selectordinal` or `select` argument from its first selector,
/// at index `i`, on: the options and the closing `}`.
#[verifier::opaque]
pub open spec fn choice_options(
    s: Seq<char>,
    i: int,
    offset: i64,
    arg_type: ArgType,
    name: Seq<char>,
    open: int,
    ctx: Context,
) -> Parsed<ElementView>
    decreases s.len() - i, 1int,
{
    match options(s, i, seq![], arg_type, ctx) {
        Err(failure) => Err(failure),
        Ok((options, end)) => if !at(s, end, '}') {
            fail(ErrorKind::ExpectArgumentClosingBrace, span_at(s, open, end))
        } else {
            let span = span_at(s, open, end + 1);
            Ok(
                (
                    match arg_type {
                        ArgType::Select => ElementView::Select { name, span, options },
                        _ => ElementView::Plural {
                            name,
                            plural_type: if arg_type == ArgType::Plural {
                                PluralType::Cardinal
                            } else {
                                PluralType::Ordinal
                            },
                            span,
                            offset,
                            options,
                        },
                    },
                    end + 1,
                ),
            )
        },
    }
}

/// The options of an argument of type `arg_type` from the selector at index
/// `i` on, behind the options `seen`. Each is a selector and a message in
/// braces; a selector that `seen` holds is an error. A message ends at or
/// behind where it began, as `induction::lemma_message` proves: the branch
/// for one that does not is never reached.
#[verifier::opaque]
pub open spec fn options(
    s: Seq<char>,
    i: int,
    seen: Seq<(Seq<char>, OptionView)>,
    arg_type: ArgType,
    ctx: Context,
) -> Parsed<Seq<(Seq<char>, OptionView)>>
    decreases s.len() - i, 0int,
{
    let end = selector_end(s, i);
    let selector = s.subrange(i, end);
    let brace = skip_space(s, end);
    let number = decimal_integer(
        s,
        i + 1,
        ErrorKind::ExpectPluralArgumentSelector,
        ErrorKind::InvalidPluralArgumentSelector,
    );
    if !(0 <= i <= s.len()) || !selector_at(s, i, arg_type) {
        options_done(s, i, seen, arg_type)
    } else if identifier_end(s, i) == i && number is Err {
        Err(number->Err_0)
    } else if has_selector(seen, selector) {
        fail(
            if arg_type == ArgType::Select {
                ErrorKind::DuplicateSelectArgumentSelector
            } else {
                ErrorKind::DuplicatePluralArgumentSelector
            },
            span_at(s, i, end),
        )
    } else if !at(s, brace, '{') {
        fail(
            if arg_type == ArgType::Select {
                ErrorKind::ExpectSelectArgumentSelectorFragment
            } else {
                ErrorKind::ExpectPluralArgumentSelectorFragment
            },
            span_at(s, brace, brace),
        )
    } else {
        match message(s, brace + 1, ctx.option_of(arg_type)) {
            Err(failure) => Err(failure),
            Ok((value, close)) => if !at(s, close, '}') {
                fail(ErrorKind::ExpectArgumentClosingBrace, span_at(s, brace, close))
            } else {
                let option = (selector, OptionView { value, span: span_at(s, brace, close + 1) });
                let next = skip_space(s, close + 1);
                if i < next <= s.len() {
                    options(s, next, seen.push(option), arg_type, ctx)
                } else {
                    Ok((seen.push(option), next))
                }
            },
        }
    }
}

/// The tag that `<` opens at index `i`, before a lower case letter: empty
/// with `/>`, or with a message up to the closing tag of the same name.
#[verifier::opaque]
pub open spec fn tag(s: Seq<char>, i: int, ctx: Context) -> Parsed<ElementView>
    decreases s.len() - i, 3int,
{
    let name_end = tag_name_end(s, i + 1);
    let name = s.subrange(i + 1, name_end);
    let close = skip_space(s, name_end);
    if !(0 <= i < s.len()) {
        fail(ErrorKind::InvalidTag, span_at(s, i, i))
    } else if at_pair(s, close, '/', '>') {
        Ok((ElementView::Tag { name, span: span_at(s, i, close + 2), children: seq![] }, close + 2))
    } else if at(s, close, '>') {
        match message(s, close + 1, ctx.tag_body()) {
            Err(failure) => Err(failure),
            Ok((children, end)) => {
                let end_name = tag_name_end(s, end + 2);
                let last = skip_space(s, end_name);
                if !at_pair(s, end, '<', '/') {
                    fail(ErrorKind::UnclosedTag, span_at(s, i, end))
                } else if !(end + 2 < s.len() && ascii_lowercase(s[end + 2])) {
                    fail(ErrorKind::InvalidTag, span_at(s, end, end + 2))
                } else if s.subrange(end + 2, end_name) != name {
                    fail(ErrorKind::UnmatchedClosingTag, span_at(s, end + 2, end_name))
                } else if !at(s, last, '>') {
                    fail(ErrorKind::InvalidTag, span_at(s, end, last))
                } else {
                    Ok((ElementView::Tag { name, span: span_at(s, i, last + 1), children }, last + 1))
                }
            },
        }
    } else {
        fail(ErrorKind::InvalidTag, span_at(s, i, close))
    }
}

/// What the parse of the message `s` gives: its elements, or the first
/// error.
pub open spec fn parse_result(s: Seq<char>, ignore_tag: bool) -> Result<Seq<ElementView>, Failure> {
    match message(s, 0, Context::top(ignore_tag)) {
        Err(failure) => Err(failure),
        Ok((elements, _)) => Ok(elements),
    }
}

/// `found` before the elements that `rest` holds, or the failure in `rest`.
pub open spec fn after<T>(found: Seq<T>, rest: Parsed<Seq<T>>) -> Parsed<Seq<T>> {
    match rest {
        Err(failure) => Err(failure),
        Ok((more, end)) => Ok((found + more, end)),
    }
}

/// A literal that begins where a message neither ends nor goes on with an
/// argument, a number sign or a tag takes at least one scalar value.
pub proof fn lemma_literal_progress(s: Seq<char>, i: int, ctx: Context)
    requires
        !message_ends_at(s, i, ctx),
        !closing_tag_at(s, i, ctx.ignore_tag),
        !opening_tag_at(s, i, ctx.ignore_tag),
        !at(s, i, '{'),
        !(at(s, i, '#') && plural_parent(ctx.parent)),
    ensures
        literal_len(s, i, ctx.level, ctx.parent, ctx.ignore_tag) > 0,
        i + literal_len(s, i, ctx.level, ctx.parent, ctx.ignore_tag) <= s.len(),
{
    lemma_literal_bound(s, i, ctx.level, ctx.parent, ctx.ignore_tag);
}

/// A literal ends within the text.
pub proof fn lemma_literal_bound(
    s: Seq<char>,
    i: int,
    level: nat,
    parent: Option<ArgType>,
    ignore_tag: bool,
)
    requires
        0 <= i <= s.len(),
    ensures
        i + literal_len(s, i, level, parent, ignore_tag) <= s.len(),
    decreases s.len() - i,
{
    if at_pair(s, i, '\'', '\'') {
        lemma_literal_bound(s, i + 2, level, parent, ignore_tag);
    } else if quote_opens(s, i, parent) {
        lemma_quoted_len_bound(s, i + 2);
        lemma_literal_bound(s, i + 2 + quoted_len(s, i + 2), level, parent, ignore_tag);
    } else if unquoted_at(s, i, level, parent) || bare_left_angle_at(s, i, ignore_tag) {
        lemma_literal_bound(s, i + 1, level, parent, ignore_tag);
    }
}

/// A string of one scalar value is a prefix where that value stands.
pub proof fn lemma_prefix_one(s: Seq<char>, i: int, p: Seq<char>, c: char)
    requires
        p.len() == 1,
        p[0] == c,
    ensures
        crate::cursor::has_prefix(s, i, p) <==> at(s, i, c),
{
    if crate::cursor::has_prefix(s, i, p) {
        assert(s.subrange(i, i + 1)[0] == c);
    }
    if at(s, i, c) {
        assert(s.subrange(i, i + 1) =~= p);
    }
}

/// A string of two scalar values is a prefix where those values stand.
pub proof fn lemma_prefix_two(s: Seq<char>, i: int, p: Seq<char>, c: char, d: char)
    requires
        p.len() == 2,
        p[0] == c,
        p[1] == d,
    ensures
        crate::cursor::has_prefix(s, i, p) <==> at_pair(s, i, c, d),
{
    if crate::cursor::has_prefix(s, i, p) {
        assert(s.subrange(i, i + 2)[0] == c);
        assert(s.subrange(i, i + 2)[1] == d);
    }
    if at_pair(s, i, c, d) {
        assert(s.subrange(i, i + 2) =~= p);
    }
}

/// A tag does not depend on whether a closing tag is expected around it.
pub proof fn lemma_tag_context(s: Seq<char>, i: int, ctx: Context, other: Context)
    requires
        ctx.tag_body() == other.tag_body(),
    ensures
        tag(s, i, ctx) == tag(s, i, other),
{
    reveal(tag);
}

} // verus!
