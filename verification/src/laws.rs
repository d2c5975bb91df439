//! What holds of every parse: the laws of the parser, each proved of the
//! result that `Parser::parse` is specified to return.
use crate::ast::{ElementView, OptionView, Position, Span};
use crate::grammar::{
    ArgType, Context, Failure, at, at_pair, bare_left_angle_at, element, literal, literal_len,
    literal_value, message_ends_at, parse_result, quoted_len, quoted_text,
};
use crate::induction::{lemma_message, message_ok};
use crate::proofs::{failure_ok, tag_kind};
use crate::shape::{
    distinct_selectors, element_ok, elements_ok, every_element_in, every_list, every_options_in,
    lemma_every_element_in, lemma_every_list, lemma_every_options_in, literal_source,
    no_apostrophe, node_ok, node_span, options_ok, span_within, tag_source,
};
use crate::text::{
    byte_len, byte_offset, count_byte, lemma_byte_offset_monotone, lemma_encode_len,
    lemma_line_column_bound, lemma_line_counts_feeds, lemma_offset_is_boundary, pos_at, span_at,
};
use vstd::prelude::*;
use vstd::utf8::*;

verus! {

/// Whether the spans of `elements` cover the bytes from `from` up to `to`
/// without a gap or an overlap: the first begins at `from`, each ends where
/// the next begins, the last ends at `to`, and none is empty.
pub open spec fn covers(elements: Seq<ElementView>, from: int, to: int) -> bool {
    &&& elements.len() == 0 ==> from == to
    &&& elements.len() > 0 ==> elements[0].span().start.offset == from
        && elements.last().span().end.offset == to
    &&& forall|k: int|
        0 <= k < elements.len() - 1 ==> (#[trigger] elements[k]).span().end.offset == elements[k
            + 1].span().start.offset
    &&& forall|k: int|
        0 <= k < elements.len() ==> (#[trigger] elements[k]).span().start.offset
            < elements[k].span().end.offset
}

/// Whether the position `p` fits the message `s`: its offset is a character
/// boundary of the UTF-8 encoding of `s`, and its line is one more than the
/// number of line feed bytes before the offset.
pub open spec fn position_ok(s: Seq<char>, p: Position) -> bool {
    &&& is_char_boundary(encode_utf8(s), p.offset as int)
    &&& p.line == 1 + count_byte(encode_utf8(s).subrange(0, p.offset as int), 0x0a)
}

/// That both ends of the span of an element fit the message `s`.
pub open spec fn on_boundaries(s: Seq<char>) -> spec_fn(ElementView) -> bool {
    |e: ElementView| position_ok(s, e.span().start) && position_ok(s, e.span().end)
}

/// That both ends of the span of each option fit the message `s`.
pub open spec fn options_on_boundaries(s: Seq<char>) -> spec_fn(
    Seq<(Seq<char>, OptionView)>,
) -> bool {
    |options: Seq<(Seq<char>, OptionView)>|
        forall|k: int|
            0 <= k < options.len() ==> position_ok(s, (#[trigger] options[k]).1.span.start)
                && position_ok(s, options[k].1.span.end)
}

/// That an element does not end before it begins.
pub open spec fn begins_before_end() -> spec_fn(ElementView) -> bool {
    |e: ElementView| e.span().start.offset <= e.span().end.offset
}

/// That no element of a list begins before the one before it ends.
pub open spec fn in_order() -> spec_fn(Seq<ElementView>) -> bool {
    |elements: Seq<ElementView>|
        forall|k: int|
            0 <= k < elements.len() - 1 ==> (#[trigger] elements[k]).span().end.offset
                <= elements[k + 1].span().start.offset
}

/// That no two options have the same selector.
pub open spec fn selectors_differ() -> spec_fn(Seq<(Seq<char>, OptionView)>) -> bool {
    |options: Seq<(Seq<char>, OptionView)>| distinct_selectors(options)
}

/// That a tag closes in the source `s` with its own name.
pub open spec fn tag_balanced(s: Seq<char>) -> spec_fn(ElementView) -> bool {
    |e: ElementView|
        match e {
            ElementView::Tag { name, span, .. } => tag_source(s, span, name),
            _ => true,
        }
}

/// That the value of a literal without an apostrophe in its source `s` is
/// that source.
pub open spec fn literal_round_trip(s: Seq<char>) -> spec_fn(ElementView) -> bool {
    |e: ElementView|
        match e {
            ElementView::Literal { value, span } => literal_source(s, span, value),
            _ => true,
        }
}

/// That an element is no tag.
pub open spec fn no_tag() -> spec_fn(ElementView) -> bool {
    |e: ElementView| !(e is Tag)
}

/// The position at an index of a message fits the message.
pub proof fn lemma_position_ok(s: Seq<char>, i: int)
    requires
        0 <= i <= s.len(),
        byte_len(s) < usize::MAX,
    ensures
        position_ok(s, pos_at(s, i)),
        pos_at(s, i).offset == byte_offset(s, i),
{
    lemma_encode_len(s);
    lemma_offset_is_boundary(s, i);
    lemma_line_counts_feeds(s, i);
    lemma_byte_offset_monotone(s, i, s.len() as int);
    lemma_byte_offset_monotone(s, 0, s.len() as int);
    lemma_line_column_bound(s, i);
}

/// Both ends of a span within a message fit the message, and the span does
/// not end before it begins.
pub proof fn lemma_span_ok(s: Seq<char>, span: Span)
    requires
        span_within(s, span),
        byte_len(s) < usize::MAX,
    ensures
        position_ok(s, span.start),
        position_ok(s, span.end),
        span.start.offset <= span.end.offset <= byte_len(s),
        node_span(s, span) ==> span.start.offset < span.end.offset,
{
    let (a, b) = choose|a: int, b: int|
        0 <= a <= b <= s.len() && span == #[trigger] span_at(s, a, b);
    lemma_encode_len(s);
    lemma_position_ok(s, a);
    lemma_position_ok(s, b);
    lemma_byte_offset_monotone(s, a, b);
    lemma_byte_offset_monotone(s, b, s.len() as int);
    if node_span(s, span) {
        let (c, d) = choose|c: int, d: int|
            0 <= c < d <= s.len() && span == #[trigger] span_at(s, c, d);
        lemma_position_ok(s, c);
        lemma_position_ok(s, d);
        lemma_byte_offset_monotone(s, c, d);
    }
}

/// What `Parser::parse` returns has the shape of a tree of the message, and
/// an error lies in the message.
pub proof fn lemma_parse_result(s: Seq<char>, ignore_tag: bool)
    requires
        byte_len(s) < usize::MAX,
    ensures
        match parse_result(s, ignore_tag) {
            Ok(elements) => message_ok(
                s,
                0,
                Context::top(ignore_tag),
                Ok((elements, s.len() as int)),
            ),
            Err(failure) => failure_ok(s, failure, ignore_tag),
        },
{
    lemma_message(s, 0, Context::top(ignore_tag));
}

/// The spans of the elements of a parsed message cover the message from its
/// first to its last byte without a gap or an overlap, and the span of an
/// error lies within the message.
pub proof fn law_spans_cover_message(s: Seq<char>, ignore_tag: bool)
    requires
        byte_len(s) < usize::MAX,
    ensures
        match parse_result(s, ignore_tag) {
            Ok(elements) => covers(elements, 0, byte_len(s) as int),
            Err(failure) => failure.span.start.offset <= failure.span.end.offset <= byte_len(s),
        },
{
    lemma_parse_result(s, ignore_tag);
    match parse_result(s, ignore_tag) {
        Ok(elements) => {
            lemma_encode_len(s);
            lemma_position_ok(s, 0);
            lemma_position_ok(s, s.len() as int);
            assert(byte_offset(s, 0) == 0);
            assert forall|k: int| 0 <= k < elements.len() implies (
            #[trigger] elements[k]).span().start.offset < elements[k].span().end.offset by {
                assert(element_ok(s, elements[k], ignore_tag));
                lemma_span_ok(s, elements[k].span());
            }
        },
        Err(failure) => {
            lemma_span_ok(s, failure.span);
        },
    }
}

/// Every position of a parsed message is a character boundary of its UTF-8
/// encoding, and its line is one more than the number of line feed bytes
/// before it: of every element, of every option, and of an error.
pub proof fn law_positions_fit_message(s: Seq<char>, ignore_tag: bool)
    requires
        byte_len(s) < usize::MAX,
    ensures
        match parse_result(s, ignore_tag) {
            Ok(elements) => every_element_in(elements, on_boundaries(s)) && every_options_in(
                elements,
                options_on_boundaries(s),
            ),
            Err(failure) => position_ok(s, failure.span.start) && position_ok(
                s,
                failure.span.end,
            ),
        },
{
    lemma_parse_result(s, ignore_tag);
    match parse_result(s, ignore_tag) {
        Ok(elements) => {
            assert forall|x: ElementView| node_ok(s, x, ignore_tag) implies #[trigger] on_boundaries(
                s,
            )(x) by {
                lemma_span_ok(s, x.span());
            }
            lemma_every_element_in(s, elements, ignore_tag, on_boundaries(s));
            assert forall|o: Seq<(Seq<char>, OptionView)>|
                options_ok(s, o, ignore_tag) implies #[trigger] options_on_boundaries(s)(o) by {
                assert forall|k: int| 0 <= k < o.len() implies position_ok(
                    s,
                    (#[trigger] o[k]).1.span.start,
                ) && position_ok(s, o[k].1.span.end) by {
                    lemma_span_ok(s, o[k].1.span);
                }
            }
            lemma_every_options_in(s, elements, ignore_tag, options_on_boundaries(s));
        },
        Err(failure) => {
            lemma_span_ok(s, failure.span);
        },
    }
}

/// No element of a parsed message ends before it begins, and none begins
/// before the sibling before it ends.
pub proof fn law_spans_in_order(s: Seq<char>, ignore_tag: bool)
    requires
        byte_len(s) < usize::MAX,
    ensures
        parse_result(s, ignore_tag) matches Ok(elements) ==> every_element_in(
            elements,
            begins_before_end(),
        ) && every_list(elements, in_order()),
{
    lemma_parse_result(s, ignore_tag);
    match parse_result(s, ignore_tag) {
        Ok(elements) => {
            assert forall|x: ElementView|
                node_ok(s, x, ignore_tag) implies #[trigger] begins_before_end()(x) by {
                lemma_span_ok(s, x.span());
            }
            lemma_every_element_in(s, elements, ignore_tag, begins_before_end());
            assert forall|l: Seq<ElementView>|
                elements_ok(s, l, ignore_tag) implies #[trigger] in_order()(l) by {
                assert forall|k: int| 0 <= k < l.len() - 1 implies (
                #[trigger] l[k]).span().end.offset <= l[k + 1].span().start.offset by {
                    assert(l[k].span().end == l[k + 1].span().start);
                }
            }
            lemma_every_list(s, elements, ignore_tag, in_order());
        },
        Err(_) => {},
    }
}

/// No two options of an argument of a parsed message have the same
/// selector.
pub proof fn law_selectors_differ(s: Seq<char>, ignore_tag: bool)
    requires
        byte_len(s) < usize::MAX,
    ensures
        parse_result(s, ignore_tag) matches Ok(elements) ==> every_options_in(
            elements,
            selectors_differ(),
        ),
{
    lemma_parse_result(s, ignore_tag);
    match parse_result(s, ignore_tag) {
        Ok(elements) => {
            assert forall|o: Seq<(Seq<char>, OptionView)>|
                options_ok(s, o, ignore_tag) implies #[trigger] selectors_differ()(o) by {}
            lemma_every_options_in(s, elements, ignore_tag, selectors_differ());
        },
        Err(_) => {},
    }
}

/// Every tag of a parsed message is closed in the source by `/>` or by a
/// closing tag of its own name.
pub proof fn law_tags_balanced(s: Seq<char>, ignore_tag: bool)
    requires
        byte_len(s) < usize::MAX,
    ensures
        parse_result(s, ignore_tag) matches Ok(elements) ==> every_element_in(
            elements,
            tag_balanced(s),
        ),
{
    lemma_parse_result(s, ignore_tag);
    match parse_result(s, ignore_tag) {
        Ok(elements) => {
            assert forall|x: ElementView| node_ok(s, x, ignore_tag) implies #[trigger] tag_balanced(
                s,
            )(x) by {}
            lemma_every_element_in(s, elements, ignore_tag, tag_balanced(s));
        },
        Err(_) => {},
    }
}

/// The value of every literal of a parsed message whose source holds no
/// apostrophe is that source.
pub proof fn law_literal_round_trip(s: Seq<char>, ignore_tag: bool)
    requires
        byte_len(s) < usize::MAX,
    ensures
        parse_result(s, ignore_tag) matches Ok(elements) ==> every_element_in(
            elements,
            literal_round_trip(s),
        ),
{
    lemma_parse_result(s, ignore_tag);
    match parse_result(s, ignore_tag) {
        Ok(elements) => {
            assert forall|x: ElementView|
                node_ok(s, x, ignore_tag) implies #[trigger] literal_round_trip(s)(x) by {}
            lemma_every_element_in(s, elements, ignore_tag, literal_round_trip(s));
        },
        Err(_) => {},
    }
}

/// A doubled apostrophe stands for one apostrophe in the value of a
/// literal, outside quoted text and within it.
pub proof fn law_doubled_apostrophe(
    s: Seq<char>,
    i: int,
    level: nat,
    parent: Option<ArgType>,
    ignore_tag: bool,
)
    requires
        at_pair(s, i, '\'', '\''),
    ensures
        literal_value(s, i, level, parent, ignore_tag) == seq!['\''] + literal_value(
            s,
            i + 2,
            level,
            parent,
            ignore_tag,
        ),
        literal_len(s, i, level, parent, ignore_tag) == 2 + literal_len(
            s,
            i + 2,
            level,
            parent,
            ignore_tag,
        ),
        quoted_text(s, i) == seq!['\''] + quoted_text(s, i + 2),
        quoted_len(s, i) == 2 + quoted_len(s, i + 2),
{
}

/// A doubled apostrophe in the text of a literal stands for exactly one
/// apostrophe in its value: where no apostrophe stands from index `i` up to
/// index `j`, where two stand, and the literal at `i` goes on beyond `j`, its
/// value is the text from `i` up to `j`, one apostrophe, and the value of the
/// literal from behind the two.
pub proof fn law_doubled_apostrophe_in_text(
    s: Seq<char>,
    i: int,
    j: int,
    level: nat,
    parent: Option<ArgType>,
    ignore_tag: bool,
)
    requires
        0 <= i <= j,
        no_apostrophe(s, i, j),
        at_pair(s, j, '\'', '\''),
        j < i + literal_len(s, i, level, parent, ignore_tag),
    ensures
        literal_value(s, i, level, parent, ignore_tag) == s.subrange(i, j) + seq!['\'']
            + literal_value(s, j + 2, level, parent, ignore_tag),
        literal_len(s, i, level, parent, ignore_tag) == (j - i) + 2 + literal_len(
            s,
            j + 2,
            level,
            parent,
            ignore_tag,
        ),
    decreases j - i,
{
    if i == j {
        assert(s.subrange(i, j) + seq!['\''] =~= seq!['\'']);
    } else {
        assert(s[i] != '\'');
        law_doubled_apostrophe_in_text(s, i + 1, j, level, parent, ignore_tag);
        let rest = literal_value(s, j + 2, level, parent, ignore_tag);
        assert(seq![s[i]] + (s.subrange(i + 1, j) + seq!['\''] + rest) =~= s.subrange(i, j)
            + seq!['\''] + rest);
    }
}

/// Where tags are ignored no element of a parsed message is a tag, and no
/// error is about a tag.
pub proof fn law_no_tag_where_ignored(s: Seq<char>)
    requires
        byte_len(s) < usize::MAX,
    ensures
        match parse_result(s, true) {
            Ok(elements) => every_element_in(elements, no_tag()),
            Err(failure) => !tag_kind(failure.kind),
        },
{
    lemma_parse_result(s, true);
    match parse_result(s, true) {
        Ok(elements) => {
            assert forall|x: ElementView| node_ok(s, x, true) implies #[trigger] no_tag()(x) by {}
            lemma_every_element_in(s, elements, true, no_tag());
        },
        Err(_) => {},
    }
}

/// Where tags are ignored a `<` in a message is text: the element that
/// begins with it is a literal, whose value begins with it.
pub proof fn law_left_angle_is_text(s: Seq<char>, i: int, ctx: Context)
    requires
        ctx.ignore_tag,
        at(s, i, '<'),
    ensures
        !message_ends_at(s, i, ctx),
        element(s, i, ctx) == Ok::<(ElementView, int), Failure>(
            literal(s, i, ctx.level, ctx.parent, ctx.ignore_tag),
        ),
        literal_len(s, i, ctx.level, ctx.parent, ctx.ignore_tag) >= 1,
        literal_value(s, i, ctx.level, ctx.parent, ctx.ignore_tag)[0] == '<',
{
    reveal(element);
    assert(bare_left_angle_at(s, i, ctx.ignore_tag));
}

/// What holds of the elements of every parsed message `s`: their spans cover
/// the message, every position fits the message, spans are in order, the
/// selectors of an argument differ, tags are balanced, literals without an
/// apostrophe are their source, and where tags are ignored there is no tag.
pub open spec fn tree_laws(s: Seq<char>, ignore_tag: bool, elements: Seq<ElementView>) -> bool {
    &&& covers(elements, 0, byte_len(s) as int)
    &&& every_element_in(elements, on_boundaries(s))
    &&& every_options_in(elements, options_on_boundaries(s))
    &&& every_element_in(elements, begins_before_end())
    &&& every_list(elements, in_order())
    &&& every_options_in(elements, selectors_differ())
    &&& every_element_in(elements, tag_balanced(s))
    &&& every_element_in(elements, literal_round_trip(s))
    &&& (ignore_tag ==> every_element_in(elements, no_tag()))
}

/// What holds of the error of every parse of a message `s`: its span lies
/// within the message, both ends of it fit the message, and where tags are
/// ignored it is not about a tag.
pub open spec fn error_laws(s: Seq<char>, ignore_tag: bool, failure: Failure) -> bool {
    &&& failure.span.start.offset <= failure.span.end.offset <= byte_len(s)
    &&& position_ok(s, failure.span.start)
    &&& position_ok(s, failure.span.end)
    &&& (ignore_tag ==> !tag_kind(failure.kind))
}

/// Every parse obeys the laws of the parser.
pub proof fn law_parse(s: Seq<char>, ignore_tag: bool)
    requires
        byte_len(s) < usize::MAX,
    ensures
        match parse_result(s, ignore_tag) {
            Ok(elements) => tree_laws(s, ignore_tag, elements),
            Err(failure) => error_laws(s, ignore_tag, failure),
        },
{
    law_spans_cover_message(s, ignore_tag);
    law_positions_fit_message(s, ignore_tag);
    law_spans_in_order(s, ignore_tag);
    law_selectors_differ(s, ignore_tag);
    law_tags_balanced(s, ignore_tag);
    law_literal_round_trip(s, ignore_tag);
    if ignore_tag {
        law_no_tag_where_ignored(s);
    }
}

} // verus!
