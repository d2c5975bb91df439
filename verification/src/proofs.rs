//! Proofs about the grammar: every result lies in the text, and every tree
//! has the shape that `shape` describes.
use crate::ast::{ErrorKind, Span};
use crate::cursor::{find_char, lemma_find_char_bounds, lemma_skip_space_bounds, skip_space};
use crate::grammar::{
    ArgType, Failure, arg_style_end, at, close_simple_argument, decimal_end, decimal_integer,
    element, lemma_decimal_bound, lemma_literal_bound, lemma_word_run_bound, literal, literal_len,
    literal_value, number_skeleton, simple_argument, skeleton_of, skeleton_tokens, styled_argument,
    token_options, trim_end, word_run,
};
use crate::shape::{element_ok, literal_source, no_apostrophe, node_span, span_within};
use crate::text::span_at;
use vstd::prelude::*;

verus! {

/// Whether an error of kind `kind` is about a tag.
pub open spec fn tag_kind(kind: ErrorKind) -> bool {
    kind == ErrorKind::InvalidTag || kind == ErrorKind::UnclosedTag || kind
        == ErrorKind::UnmatchedClosingTag
}

/// Whether a failure lies in the text, and is about a tag only where tags
/// are parsed.
pub open spec fn failure_ok(s: Seq<char>, failure: Failure, ignore_tag: bool) -> bool {
    span_within(s, failure.span) && (ignore_tag ==> !tag_kind(failure.kind))
}

/// The span between two indices of a text lies within the text.
pub proof fn lemma_span_within(s: Seq<char>, a: int, b: int)
    requires
        0 <= a <= b <= s.len(),
    ensures
        span_within(s, span_at(s, a, b)),
        a < b ==> node_span(s, span_at(s, a, b)),
{
}

/// The value of a literal without an apostrophe in its source is its source.
pub proof fn lemma_literal_plain(
    s: Seq<char>,
    i: int,
    level: nat,
    parent: Option<ArgType>,
    ignore_tag: bool,
)
    requires
        0 <= i <= s.len(),
        no_apostrophe(s, i, i + literal_len(s, i, level, parent, ignore_tag)),
    ensures
        literal_value(s, i, level, parent, ignore_tag) == s.subrange(
            i,
            i + literal_len(s, i, level, parent, ignore_tag),
        ),
    decreases s.len() - i,
{
    let len = literal_len(s, i, level, parent, ignore_tag);
    lemma_literal_bound(s, i, level, parent, ignore_tag);
    if len == 0 {
        assert(literal_value(s, i, level, parent, ignore_tag) =~= s.subrange(i, i));
    } else {
        assert(s[i] != '\'');
        lemma_literal_plain(s, i + 1, level, parent, ignore_tag);
        assert(seq![s[i]] + s.subrange(i + 1, i + len) =~= s.subrange(i, i + len));
    }
}

/// A literal that takes at least one scalar value is a node of the text, and
/// without an apostrophe in its source its value is its source.
pub proof fn lemma_literal_ok(
    s: Seq<char>,
    i: int,
    level: nat,
    parent: Option<ArgType>,
    ignore_tag: bool,
)
    requires
        0 <= i <= s.len(),
        literal_len(s, i, level, parent, ignore_tag) > 0,
    ensures
        element_ok(s, literal(s, i, level, parent, ignore_tag).0, ignore_tag),
        i < literal(s, i, level, parent, ignore_tag).1 <= s.len(),
        literal(s, i, level, parent, ignore_tag).0.span() == span_at(
            s,
            i,
            literal(s, i, level, parent, ignore_tag).1,
        ),
{
    let end = i + literal_len(s, i, level, parent, ignore_tag);
    lemma_literal_bound(s, i, level, parent, ignore_tag);
    if no_apostrophe(s, i, end) {
        lemma_literal_plain(s, i, level, parent, ignore_tag);
    }
    let span = span_at(s, i, end);
    assert(literal_source(s, span, literal_value(s, i, level, parent, ignore_tag)));
    assert(node_span(s, span));
}

/// A decimal integer ends behind where it began, within the text, and its
/// failure lies in the text.
pub proof fn lemma_decimal_integer(s: Seq<char>, i: int, expect: ErrorKind, invalid: ErrorKind)
    requires
        0 <= i <= s.len(),
    ensures
        match decimal_integer(s, i, expect, invalid) {
            Ok((_, end)) => i < end <= s.len() && end == decimal_end(s, i),
            Err(failure) => span_within(s, failure.span) && (failure.kind == expect || failure.kind
                == invalid),
        },
{
    lemma_decimal_bound(s, i);
    lemma_span_within(s, i, decimal_end(s, i));
}

/// A style ends within the text, and only an apostrophe without a partner
/// makes it fail.
pub proof fn lemma_arg_style_end(s: Seq<char>, i: int, depth: nat)
    requires
        0 <= i <= s.len(),
    ensures
        match arg_style_end(s, i, depth) {
            Ok(end) => i <= end <= s.len(),
            Err(failure) => span_within(s, failure.span) && failure.kind
                == ErrorKind::UnclosedQuoteInArgumentStyle,
        },
    decreases s.len() - i,
{
    if i < s.len() {
        if s[i] == '\'' {
            lemma_find_char_bounds(s, i + 1, '\'');
            let close = find_char(s, i + 1, '\'');
            if close >= s.len() {
                lemma_span_within(s, i, s.len() as int);
            } else {
                lemma_arg_style_end(s, close + 1, depth);
            }
        } else if s[i] == '{' {
            lemma_arg_style_end(s, i + 1, depth + 1);
        } else if s[i] == '}' {
            if depth > 0 {
                lemma_arg_style_end(s, i + 1, (depth - 1) as nat);
            }
        } else {
            lemma_arg_style_end(s, i + 1, depth);
        }
    }
}

/// The options of a skeleton token fail only with `InvalidNumberSkeleton`.
pub proof fn lemma_token_options_kind(w: Seq<char>, k: int)
    ensures
        token_options(w, k) matches Err(kind) ==> kind == ErrorKind::InvalidNumberSkeleton,
    decreases w.len() - k,
{
    if 0 <= k < w.len() {
        lemma_find_char_bounds(w, k + 1, '/');
        let end = find_char(w, k + 1, '/');
        if end != k + 1 {
            lemma_token_options_kind(w, end);
        }
    }
}

/// The tokens of a skeleton fail only with `InvalidNumberSkeleton`.
pub proof fn lemma_skeleton_tokens_kind(t: Seq<char>, i: int)
    ensures
        skeleton_tokens(t, i) matches Err(kind) ==> kind == ErrorKind::InvalidNumberSkeleton,
    decreases t.len() - i,
{
    if 0 <= i <= t.len() {
        let start = skip_space(t, i);
        let end = start + word_run(t, start);
        lemma_skip_space_bounds(t, i);
        lemma_word_run_bound(t, start);
        if start < t.len() {
            let word = t.subrange(start, end);
            lemma_token_options_kind(word, find_char(word, 0, '/'));
            lemma_skeleton_tokens_kind(t, end);
        }
    }
}

/// A number skeleton keeps the span that it was given, and fails only with
/// `ExpectNumberSkeleton` and `InvalidNumberSkeleton`.
pub proof fn lemma_number_skeleton(t: Seq<char>, span: Span)
    ensures
        match number_skeleton(t, span) {
            Ok(skeleton) => skeleton.span == span,
            Err(kind) => kind == ErrorKind::ExpectNumberSkeleton || kind
                == ErrorKind::InvalidNumberSkeleton,
        },
{
    lemma_skeleton_tokens_kind(t, 0);
}

/// A `number`, `date` or `time` element with spans in the text has the shape
/// of a tree of the text; its failure lies in the text.
pub proof fn lemma_styled_argument(
    s: Seq<char>,
    arg_type: ArgType,
    name: Seq<char>,
    span: Span,
    style: Option<(Seq<char>, Span)>,
    ignore_tag: bool,
)
    requires
        node_span(s, span),
        style matches Some((_, style_span)) ==> span_within(s, style_span),
    ensures
        match styled_argument(arg_type, name, span, style) {
            Ok(element) => element.span() == span && element_ok(s, element, ignore_tag) && !(element
                is Tag),
            Err(failure) => failure_ok(s, failure, ignore_tag),
        },
{
    reveal(styled_argument);
    assert(span_within(s, span));
    match style {
        Some((text, style_span)) => {
            lemma_number_skeleton(skeleton_of(text), style_span);
        },
        None => {},
    }
}

/// The closing brace of a `number`, `date` or `time` argument.
pub proof fn lemma_close_simple_argument(
    s: Seq<char>,
    i: int,
    arg_type: ArgType,
    name: Seq<char>,
    open: int,
    style: Option<(Seq<char>, Span)>,
    ignore_tag: bool,
)
    requires
        0 <= open < i <= s.len(),
        style matches Some((_, style_span)) ==> span_within(s, style_span),
    ensures
        match close_simple_argument(s, i, arg_type, name, open, style) {
            Ok((element, end)) => end == i + 1 && end <= s.len() && element.span() == span_at(
                s,
                open,
                end,
            ) && element_ok(s, element, ignore_tag) && !(element is Tag),
            Err(failure) => failure_ok(s, failure, ignore_tag),
        },
{
    reveal(close_simple_argument);
    lemma_span_within(s, open, i);
    if at(s, i, '}') {
        lemma_span_within(s, open, i + 1);
        lemma_styled_argument(s, arg_type, name, span_at(s, open, i + 1), style, ignore_tag);
    }
}

/// A `number`, `date` or `time` argument ends within the text behind where
/// it began and spans from its `{`; its failure lies in the text.
pub proof fn lemma_simple_argument(
    s: Seq<char>,
    i: int,
    arg_type: ArgType,
    name: Seq<char>,
    open: int,
    ignore_tag: bool,
)
    requires
        0 <= open < i <= s.len(),
    ensures
        match simple_argument(s, i, arg_type, name, open) {
            Ok((element, end)) => i < end <= s.len() && element.span() == span_at(s, open, end)
                && element_ok(s, element, ignore_tag) && !(element is Tag),
            Err(failure) => failure_ok(s, failure, ignore_tag),
        },
{
    reveal(simple_argument);
    lemma_skip_space_bounds(s, i);
    let comma = skip_space(s, i);
    if at(s, comma, ',') {
        lemma_skip_space_bounds(s, comma + 1);
        let start = skip_space(s, comma + 1);
        lemma_arg_style_end(s, start, 0);
        match arg_style_end(s, start, 0) {
            Err(failure) => {},
            Ok(end) => {
                lemma_span_within(s, end, end);
                lemma_span_within(s, start, end);
                let style = trim_end(s.subrange(start, end));
                if style.len() != 0 {
                    lemma_close_simple_argument(
                        s,
                        end,
                        arg_type,
                        name,
                        open,
                        Some((style, span_at(s, start, end))),
                        ignore_tag,
                    );
                }
            },
        }
    } else {
        lemma_close_simple_argument(s, comma, arg_type, name, open, None, ignore_tag);
    }
}

} // verus!
