//! The proof, by induction along the grammar, that every message, element,
//! argument, option and tag that the grammar gives lies in the text and has
//! the shape of a tree of the text.
use crate::ast::{ElementView, ErrorKind, OptionView};
use crate::cursor::{lemma_skip_space_bounds, skip_space};
use crate::grammar::{
    ArgType, Context, Parsed, arg_type_of, argument, argument_options, at, at_pair,
    choice_argument, choice_options, closing_tag_at, decimal_end, decimal_integer, element,
    has_selector, identifier_end, lemma_decimal_bound, lemma_identifier_bound,
    lemma_literal_progress, lemma_name_bound, message, message_ends_at, opening_tag_at, options,
    plural_parent, selector_at, selector_end, tag, tag_name_end,
};
use crate::proofs::{
    failure_ok, lemma_decimal_integer, lemma_literal_ok, lemma_simple_argument, lemma_span_within,
};
use crate::shape::{closes_at, element_ok, elements_ok, node_span, options_ok, tag_at, tag_source};
use crate::text::{
    byte_len, byte_offset, lemma_byte_offset_monotone, lemma_encode_len, pos_at, span_at,
};
use vstd::prelude::*;

verus! {

/// What holds of the message that the grammar gives at index `i`: it ends
/// within the text, its elements have the shape of a tree of the text, the
/// first begins at `i` and the last ends where the message ends, and a whole
/// message ends with the text. A failure lies in the text.
pub open spec fn message_ok(s: Seq<char>, i: int, ctx: Context, r: Parsed<Seq<ElementView>>) -> bool {
    match r {
        Ok((elements, end)) => {
            &&& i <= end <= s.len()
            &&& elements_ok(s, elements, ctx.ignore_tag)
            &&& (elements.len() == 0 ==> end == i)
            &&& (elements.len() > 0 ==> elements[0].span().start == pos_at(s, i)
                && elements.last().span().end == pos_at(s, end))
            &&& (ctx.level == 0 && !ctx.expecting_close_tag ==> end == s.len())
        },
        Err(failure) => failure_ok(s, failure, ctx.ignore_tag),
    }
}

/// What holds of an element that the grammar gives: it spans from index
/// `open` to where it ends, behind index `i` and within the text, and has
/// the shape of a tree of the text. A failure lies in the text.
pub open spec fn element_result_ok(
    s: Seq<char>,
    open: int,
    i: int,
    ignore_tag: bool,
    r: Parsed<ElementView>,
) -> bool {
    match r {
        Ok((element, end)) => {
            &&& i < end <= s.len()
            &&& element.span() == span_at(s, open, end)
            &&& element_ok(s, element, ignore_tag)
        },
        Err(failure) => failure_ok(s, failure, ignore_tag),
    }
}

/// Whether each of `seen` ends at or before index `i`.
pub open spec fn options_before(s: Seq<char>, seen: Seq<(Seq<char>, OptionView)>, i: int) -> bool {
    forall|k: int|
        0 <= k < seen.len() ==> (#[trigger] seen[k]).1.span.end.offset <= byte_offset(s, i)
}

/// What holds of the options that the grammar gives: they end within the
/// text and have the shape of a tree of the text. A failure lies in the text.
pub open spec fn options_result_ok(
    s: Seq<char>,
    i: int,
    ignore_tag: bool,
    r: Parsed<Seq<(Seq<char>, OptionView)>>,
) -> bool {
    match r {
        Ok((found, end)) => i <= end <= s.len() && options_ok(s, found, ignore_tag),
        Err(failure) => failure_ok(s, failure, ignore_tag),
    }
}

/// An element before a list of elements that begins where the element ends.
pub proof fn lemma_elements_cons(
    s: Seq<char>,
    first: ElementView,
    rest: Seq<ElementView>,
    ignore_tag: bool,
)
    requires
        element_ok(s, first, ignore_tag),
        elements_ok(s, rest, ignore_tag),
        rest.len() > 0 ==> first.span().end == rest[0].span().start,
    ensures
        elements_ok(s, seq![first] + rest, ignore_tag),
{
    let all = seq![first] + rest;
    assert forall|k: int| 0 <= k < all.len() implies element_ok(
        s,
        #[trigger] all[k],
        ignore_tag,
    ) by {
        if k > 0 {
            assert(all[k] == rest[k - 1]);
        }
    }
    assert forall|k: int| 0 <= k < all.len() - 1 implies (#[trigger] all[k]).span().end == all[k
        + 1].span().start by {
        assert(all[k + 1] == rest[k]);
        if k > 0 {
            assert(all[k] == rest[k - 1]);
        }
    }
}

/// The message at an index of the text.
pub proof fn lemma_message(s: Seq<char>, i: int, ctx: Context)
    requires
        0 <= i <= s.len(),
        byte_len(s) <= usize::MAX,
    ensures
        message_ok(s, i, ctx, message(s, i, ctx)),
    decreases s.len() - i, 5int,
{
    reveal(message);
    reveal(element);
    if message_ends_at(s, i, ctx) {
    } else if closing_tag_at(s, i, ctx.ignore_tag) {
        lemma_span_within(s, i, i);
    } else {
        lemma_element(s, i, ctx);
        match element(s, i, ctx) {
            Err(_) => {},
            Ok((first, next)) => {
                lemma_message(s, next, ctx);
                match message(s, next, ctx) {
                    Err(_) => {},
                    Ok((rest, end)) => {
                        lemma_elements_cons(s, first, rest, ctx.ignore_tag);
                        let all = seq![first] + rest;
                        assert(all[0] == first);
                        if rest.len() > 0 {
                            assert(all.last() == rest.last());
                        }
                    },
                }
            },
        }
    }
}

/// The element at an index where the message does not end.
pub proof fn lemma_element(s: Seq<char>, i: int, ctx: Context)
    requires
        0 <= i <= s.len(),
        byte_len(s) <= usize::MAX,
        !message_ends_at(s, i, ctx),
        !closing_tag_at(s, i, ctx.ignore_tag),
    ensures
        element_result_ok(s, i, i, ctx.ignore_tag, element(s, i, ctx)),
    decreases s.len() - i, 4int,
{
    reveal(element);
    reveal(argument);
    reveal(tag);
    if at(s, i, '{') {
        lemma_argument(s, i, ctx.in_argument());
    } else if at(s, i, '#') && plural_parent(ctx.parent) {
        lemma_span_within(s, i, i + 1);
    } else if opening_tag_at(s, i, ctx.ignore_tag) {
        lemma_tag(s, i, ctx);
    } else {
        lemma_literal_progress(s, i, ctx);
        lemma_literal_ok(s, i, ctx.level, ctx.parent, ctx.ignore_tag);
    }
}

/// The argument at a `{`.
pub proof fn lemma_argument(s: Seq<char>, i: int, ctx: Context)
    requires
        at(s, i, '{'),
        byte_len(s) <= usize::MAX,
    ensures
        element_result_ok(s, i, i, ctx.ignore_tag, argument(s, i, ctx)),
    decreases s.len() - i, 3int,
{
    reveal(argument);
    reveal(argument_options);
    let start = skip_space(s, i + 1);
    lemma_skip_space_bounds(s, i + 1);
    lemma_identifier_bound(s, start);
    let end = identifier_end(s, start);
    lemma_skip_space_bounds(s, end);
    let next = skip_space(s, end);
    lemma_span_within(s, i, start);
    lemma_span_within(s, i, end);
    lemma_span_within(s, i, next);
    if start < s.len() {
        lemma_span_within(s, i, start + 1);
    }
    if next < s.len() {
        lemma_span_within(s, i, next + 1);
        lemma_skip_space_bounds(s, next + 1);
        let arg_type = skip_space(s, next + 1);
        lemma_span_within(s, i, arg_type);
        if start < s.len() && s[start] != '}' && end != start && s[next] == ',' && arg_type
            < s.len() {
            lemma_argument_options(s, arg_type, s.subrange(start, end), i, ctx);
        }
    }
}

/// An argument from its type on.
pub proof fn lemma_argument_options(
    s: Seq<char>,
    i: int,
    name: Seq<char>,
    open: int,
    ctx: Context,
)
    requires
        0 <= open < i <= s.len(),
        byte_len(s) <= usize::MAX,
    ensures
        element_result_ok(s, open, i, ctx.ignore_tag, argument_options(s, i, name, open, ctx)),
    decreases s.len() - i, 2int,
{
    reveal(argument_options);
    reveal(choice_argument);
    lemma_identifier_bound(s, i);
    let end = identifier_end(s, i);
    lemma_span_within(s, i, end);
    if end != i {
        match arg_type_of(s.subrange(i, end)) {
            None => {},
            Some(arg_type) => match arg_type {
                ArgType::Number | ArgType::Date | ArgType::Time => {
                    lemma_simple_argument(s, end, arg_type, name, open, ctx.ignore_tag);
                },
                _ => {
                    lemma_choice_argument(s, end, arg_type, name, open, ctx);
                },
            },
        }
    }
}

/// A `plural`, `selectordinal` or `select` argument from behind its type on.
pub proof fn lemma_choice_argument(
    s: Seq<char>,
    i: int,
    arg_type: ArgType,
    name: Seq<char>,
    open: int,
    ctx: Context,
)
    requires
        0 <= open < i <= s.len(),
        byte_len(s) <= usize::MAX,
    ensures
        element_result_ok(
            s,
            open,
            i,
            ctx.ignore_tag,
            choice_argument(s, i, arg_type, name, open, ctx),
        ),
    decreases s.len() - i, 1int,
{
    reveal(choice_argument);
    reveal(choice_options);
    lemma_skip_space_bounds(s, i);
    let comma = skip_space(s, i);
    lemma_span_within(s, i, i);
    if at(s, comma, ',') {
        lemma_skip_space_bounds(s, comma + 1);
        let first = skip_space(s, comma + 1);
        lemma_identifier_bound(s, first);
        let first_end = identifier_end(s, first);
        lemma_span_within(s, first_end, first_end);
        if arg_type != ArgType::Select && s.subrange(first, first_end) == "offset"@ {
            if at(s, first_end, ':') {
                lemma_skip_space_bounds(s, first_end + 1);
                let number = skip_space(s, first_end + 1);
                lemma_decimal_integer(
                    s,
                    number,
                    ErrorKind::ExpectPluralArgumentOffsetValue,
                    ErrorKind::InvalidPluralArgumentOffsetValue,
                );
                lemma_decimal_bound(s, number);
                lemma_skip_space_bounds(s, decimal_end(s, number));
                match decimal_integer(
                    s,
                    number,
                    ErrorKind::ExpectPluralArgumentOffsetValue,
                    ErrorKind::InvalidPluralArgumentOffsetValue,
                ) {
                    Err(_) => {},
                    Ok((offset, _)) => {
                        lemma_choice_options(
                            s,
                            skip_space(s, decimal_end(s, number)),
                            offset,
                            arg_type,
                            name,
                            open,
                            ctx,
                        );
                    },
                }
            }
        } else {
            lemma_choice_options(s, first, 0, arg_type, name, open, ctx);
        }
    }
}

/// A `plural`, `selectordinal` or `select` argument from its first selector
/// on.
#[verifier::rlimit(50)]
pub proof fn lemma_choice_options(
    s: Seq<char>,
    i: int,
    offset: i64,
    arg_type: ArgType,
    name: Seq<char>,
    open: int,
    ctx: Context,
)
    requires
        0 <= open < i <= s.len(),
        byte_len(s) <= usize::MAX,
    ensures
        element_result_ok(
            s,
            open,
            i,
            ctx.ignore_tag,
            choice_options(s, i, offset, arg_type, name, open, ctx),
        ),
    decreases s.len() - i, 1int,
{
    reveal(choice_options);
    reveal(options);
    lemma_options(s, i, seq![], arg_type, ctx);
    match options(s, i, seq![], arg_type, ctx) {
        Err(_) => {},
        Ok((found, end)) => {
            lemma_span_within(s, open, end);
            if at(s, end, '}') {
                lemma_span_within(s, open, end + 1);
            }
        },
    }
}

/// The options from a selector on, behind options of that shape which end
/// before the selector.
pub proof fn lemma_options(
    s: Seq<char>,
    i: int,
    seen: Seq<(Seq<char>, OptionView)>,
    arg_type: ArgType,
    ctx: Context,
)
    requires
        0 <= i <= s.len(),
        byte_len(s) <= usize::MAX,
        options_ok(s, seen, ctx.ignore_tag),
        options_before(s, seen, i),
    ensures
        options_result_ok(s, i, ctx.ignore_tag, options(s, i, seen, arg_type, ctx)),
    decreases s.len() - i, 0int,
{
    reveal(options);
    reveal(message);
    lemma_span_within(s, i, i);
    if selector_at(s, i, arg_type) {
        lemma_identifier_bound(s, i);
        if i < s.len() {
            lemma_decimal_bound(s, i + 1);
            lemma_decimal_integer(
                s,
                i + 1,
                ErrorKind::ExpectPluralArgumentSelector,
                ErrorKind::InvalidPluralArgumentSelector,
            );
        }
        let end = selector_end(s, i);
        let selector = s.subrange(i, end);
        lemma_skip_space_bounds(s, end);
        let brace = skip_space(s, end);
        lemma_span_within(s, i, end);
        lemma_span_within(s, brace, brace);
        let number = decimal_integer(
            s,
            i + 1,
            ErrorKind::ExpectPluralArgumentSelector,
            ErrorKind::InvalidPluralArgumentSelector,
        );
        if !(identifier_end(s, i) == i && number is Err) && !has_selector(seen, selector) && at(
            s,
            brace,
            '{',
        ) {
            let inner = ctx.option_of(arg_type);
            lemma_message(s, brace + 1, inner);
            match message(s, brace + 1, inner) {
                Err(_) => {},
                Ok((value, close)) => {
                    lemma_span_within(s, brace, close);
                    if at(s, close, '}') {
                        lemma_span_within(s, brace, close + 1);
                        let option = (
                            selector,
                            OptionView { value, span: span_at(s, brace, close + 1) },
                        );
                        let next = skip_space(s, close + 1);
                        lemma_skip_space_bounds(s, close + 1);
                        let more = seen.push(option);
                        lemma_encode_len(s);
                        lemma_byte_offset_monotone(s, i, brace);
                        lemma_byte_offset_monotone(s, brace, close + 1);
                        lemma_byte_offset_monotone(s, close + 1, next);
                        lemma_byte_offset_monotone(s, next, s.len() as int);
                        assert forall|k: int| 0 <= k < more.len() implies node_span(
                            s,
                            (#[trigger] more[k]).1.span,
                        ) && elements_ok(s, more[k].1.value, ctx.ignore_tag) by {
                            if k < seen.len() {
                                assert(more[k] == seen[k]);
                            }
                        }
                        assert forall|j: int, k: int|
                            0 <= j < more.len() && 0 <= k < more.len() && j != k implies (
                        #[trigger] more[j]).0 != (#[trigger] more[k]).0 by {
                            if j < seen.len() {
                                assert(more[j] == seen[j]);
                            }
                            if k < seen.len() {
                                assert(more[k] == seen[k]);
                            }
                        }
                        assert forall|k: int| 0 <= k < more.len() - 1 implies (
                        #[trigger] more[k]).1.span.end.offset <= more[k
                            + 1].1.span.start.offset by {
                            assert(more[k] == seen[k]);
                            if k + 1 < seen.len() {
                                assert(more[k + 1] == seen[k + 1]);
                            }
                        }
                        assert forall|k: int| 0 <= k < more.len() implies (
                        #[trigger] more[k]).1.span.end.offset <= byte_offset(s, next) by {
                            if k < seen.len() {
                                assert(more[k] == seen[k]);
                            }
                        }
                        lemma_options(s, next, more, arg_type, ctx);
                    }
                },
            }
        }
    }
}

/// A tag that `/>` closes is a node of the text.
pub proof fn lemma_tag_empty(s: Seq<char>, i: int, close: int)
    requires
        at(s, i, '<'),
        i + 1 < s.len(),
        close == skip_space(s, tag_name_end(s, i + 1)),
        at_pair(s, close, '/', '>'),
    ensures
        i + 2 <= close,
        node_span(s, span_at(s, i, close + 2)),
        tag_source(s, span_at(s, i, close + 2), s.subrange(i + 1, tag_name_end(s, i + 1))),
{
    lemma_name_bound(s, i + 2);
    lemma_skip_space_bounds(s, tag_name_end(s, i + 1));
    lemma_span_within(s, i, close + 2);
    assert(tag_at(s, i, close + 2, close, s.subrange(i + 1, tag_name_end(s, i + 1))));
}

/// A tag that a closing tag of its name closes is a node of the text.
pub proof fn lemma_tag_closed(s: Seq<char>, i: int, end: int, last: int)
    requires
        at(s, i, '<'),
        i + 1 < s.len(),
        i + 2 <= end,
        at_pair(s, end, '<', '/'),
        end + 2 < s.len(),
        s.subrange(end + 2, tag_name_end(s, end + 2)) == s.subrange(
            i + 1,
            tag_name_end(s, i + 1),
        ),
        last == skip_space(s, tag_name_end(s, end + 2)),
        at(s, last, '>'),
    ensures
        end + 2 < last + 1 <= s.len(),
        node_span(s, span_at(s, i, last + 1)),
        tag_source(s, span_at(s, i, last + 1), s.subrange(i + 1, tag_name_end(s, i + 1))),
{
    let name = s.subrange(i + 1, tag_name_end(s, i + 1));
    let end_name = tag_name_end(s, end + 2);
    lemma_name_bound(s, i + 2);
    lemma_name_bound(s, end + 3);
    lemma_skip_space_bounds(s, end_name);
    lemma_span_within(s, i, last + 1);
    assert(s.subrange(end + 2, end_name).len() == name.len());
    assert(closes_at(s, end, last + 1, name));
    assert(tag_at(s, i, last + 1, end, name));
}

/// The tag at a `<` before a lower case letter, where tags are parsed.
#[verifier::rlimit(50)]
pub proof fn lemma_tag(s: Seq<char>, i: int, ctx: Context)
    requires
        at(s, i, '<'),
        i + 1 < s.len(),
        !ctx.ignore_tag,
        byte_len(s) <= usize::MAX,
    ensures
        element_result_ok(s, i, i, ctx.ignore_tag, tag(s, i, ctx)),
    decreases s.len() - i, 3int,
{
    reveal(tag);
    reveal(message);
    lemma_name_bound(s, i + 2);
    let name_end = tag_name_end(s, i + 1);
    lemma_skip_space_bounds(s, name_end);
    let close = skip_space(s, name_end);
    lemma_span_within(s, i, close);
    if at_pair(s, close, '/', '>') {
        lemma_tag_empty(s, i, close);
    } else if at(s, close, '>') {
        lemma_message(s, close + 1, ctx.tag_body());
        match message(s, close + 1, ctx.tag_body()) {
            Err(_) => {},
            Ok((children, end)) => {
                lemma_span_within(s, i, end);
                if at_pair(s, end, '<', '/') {
                    lemma_span_within(s, end, end + 2);
                    if end + 2 < s.len() {
                        lemma_name_bound(s, end + 3);
                        let end_name = tag_name_end(s, end + 2);
                        lemma_skip_space_bounds(s, end_name);
                        let last = skip_space(s, end_name);
                        lemma_span_within(s, end + 2, end_name);
                        lemma_span_within(s, end, last);
                        if s.subrange(end + 2, end_name) == s.subrange(i + 1, name_end) && at(
                            s,
                            last,
                            '>',
                        ) {
                            lemma_tag_closed(s, i, end, last);
                        }
                    }
                }
            },
        }
    }
}

} // verus!
