//! What holds of every tree that the grammar gives: where its spans lie, how
//! siblings follow each other, and what the source holds under each node.
use crate::ast::{DateTimeArgStyleView, ElementView, NumberArgStyleView, OptionView, Span};
use crate::cursor::skip_space;
use crate::grammar::{at, at_pair, tag_name_end};
use crate::text::span_at;
use vstd::prelude::*;

verus! {

/// Whether `span` lies in the text `s`: it goes from one index of `s` to a
/// later one, or the same.
pub open spec fn span_within(s: Seq<char>, span: Span) -> bool {
    exists|a: int, b: int| 0 <= a <= b <= s.len() && span == #[trigger] span_at(s, a, b)
}

/// Whether no scalar value of `s` from index `a` up to index `b` is an
/// apostrophe.
pub open spec fn no_apostrophe(s: Seq<char>, a: int, b: int) -> bool {
    forall|k: int| a <= k < b ==> #[trigger] s[k] != '\''
}

/// Whether `span` is the span of a literal of `s` with the value `value`: it
/// holds at least one scalar value, and where the source under it holds no
/// apostrophe, the value is that source.
pub open spec fn literal_source(s: Seq<char>, span: Span, value: Seq<char>) -> bool {
    exists|a: int, b: int|
        0 <= a < b <= s.len() && span == #[trigger] span_at(s, a, b) && (no_apostrophe(s, a, b)
            ==> value == s.subrange(a, b))
}

/// Whether `span` holds at least one scalar value of `s`.
pub open spec fn node_span(s: Seq<char>, span: Span) -> bool {
    exists|a: int, b: int| 0 <= a < b <= s.len() && span == #[trigger] span_at(s, a, b)
}

/// Whether the source under `span` is a tag with the name `name`: `<`, the
/// name, and either `/>` behind optional whitespace, or `>`, and at the end
/// of the span `</`, the same name, optional whitespace and `>`.
pub open spec fn tag_source(s: Seq<char>, span: Span, name: Seq<char>) -> bool {
    exists|a: int, b: int, c: int| span == span_at(s, a, b) && #[trigger] tag_at(s, a, b, c, name)
}

/// Whether a tag with the name `name` stands from index `a` up to index `b`,
/// and what closes it begins at index `c`: `/>`, or the closing tag.
pub open spec fn tag_at(s: Seq<char>, a: int, b: int, c: int, name: Seq<char>) -> bool {
    &&& 0 <= a < c
    &&& c + 2 <= b <= s.len()
    &&& at(s, a, '<')
    &&& name == s.subrange(a + 1, tag_name_end(s, a + 1))
    &&& (closes_at(s, c, b, name) || (at_pair(s, c, '/', '>') && c + 2 == b))
}

/// Whether the closing tag of the name `name` stands from index `c` up to
/// index `b`: `</`, the name, optional whitespace and `>`.
pub open spec fn closes_at(s: Seq<char>, c: int, b: int, name: Seq<char>) -> bool {
    &&& at_pair(s, c, '<', '/')
    &&& c + 2 + name.len() < b <= s.len()
    &&& s.subrange(c + 2, c + 2 + name.len()) == name
    &&& skip_space(s, c + 2 + name.len()) == b - 1
    &&& at(s, b - 1, '>')
}

/// Whether each of `elements` ends where the next begins.
pub open spec fn abutting(elements: Seq<ElementView>) -> bool {
    forall|k: int|
        0 <= k < elements.len() - 1 ==> (#[trigger] elements[k]).span().end == elements[k
            + 1].span().start
}

/// Whether no two of `options` have the same selector.
pub open spec fn distinct_selectors(options: Seq<(Seq<char>, OptionView)>) -> bool {
    forall|j: int, k: int|
        0 <= j < options.len() && 0 <= k < options.len() && j != k ==> (#[trigger] options[j]).0
            != (#[trigger] options[k]).0
}

/// Whether each of `options` ends before the next begins.
pub open spec fn options_in_order(options: Seq<(Seq<char>, OptionView)>) -> bool {
    forall|k: int|
        0 <= k < options.len() - 1 ==> (#[trigger] options[k]).1.span.end.offset <= options[k
            + 1].1.span.start.offset
}

/// Whether the element `e` itself, without what stands under it, fits the
/// message `s`: its span holds at least one scalar value of `s`, a literal
/// without an apostrophe in its source has that source as its value, the
/// span of a skeleton lies in `s`, a tag closes with its own name, and where
/// tags are ignored it is no tag.
pub open spec fn node_ok(s: Seq<char>, e: ElementView, ignore_tag: bool) -> bool {
    &&& node_span(s, e.span())
    &&& match e {
        ElementView::Literal { value, span } => literal_source(s, span, value),
        ElementView::Number { style, .. } => match style {
            Some(NumberArgStyleView::Skeleton(skeleton)) => span_within(s, skeleton.span),
            _ => true,
        },
        ElementView::Date { style, .. } => match style {
            Some(DateTimeArgStyleView::Skeleton(skeleton)) => span_within(s, skeleton.span),
            _ => true,
        },
        ElementView::Time { style, .. } => match style {
            Some(DateTimeArgStyleView::Skeleton(skeleton)) => span_within(s, skeleton.span),
            _ => true,
        },
        ElementView::Tag { name, span, .. } => !ignore_tag && tag_source(s, span, name),
        _ => true,
    }
}

/// Whether the element `e` and all that stands under it has the shape of a
/// tree of the message `s`: every element fits `s`, siblings follow each
/// other, and no two options of an argument have the same selector.
pub open spec fn element_ok(s: Seq<char>, e: ElementView, ignore_tag: bool) -> bool
    decreases e,
{
    &&& node_ok(s, e, ignore_tag)
    &&& match e {
        ElementView::Select { options, .. } => options_ok(s, options, ignore_tag),
        ElementView::Plural { options, .. } => options_ok(s, options, ignore_tag),
        ElementView::Tag { children, .. } => elements_ok(s, children, ignore_tag),
        _ => true,
    }
}

/// Whether each of `elements` has the shape of a tree of `s`, and each ends
/// where the next begins.
pub open spec fn elements_ok(s: Seq<char>, elements: Seq<ElementView>, ignore_tag: bool) -> bool
    decreases elements,
{
    &&& forall|k: int|
        0 <= k < elements.len() ==> element_ok(s, #[trigger] elements[k], ignore_tag)
    &&& abutting(elements)
}

/// Whether each of `options` lies in `s` and holds a message of that shape,
/// no two have the same selector, and each ends before the next begins.
pub open spec fn options_ok(
    s: Seq<char>,
    options: Seq<(Seq<char>, OptionView)>,
    ignore_tag: bool,
) -> bool
    decreases options,
{
    &&& forall|k: int|
        0 <= k < options.len() ==> node_span(s, (#[trigger] options[k]).1.span) && elements_ok(
            s,
            options[k].1.value,
            ignore_tag,
        )
    &&& distinct_selectors(options)
    &&& options_in_order(options)
}

/// Whether `holds` is true of the element `e` and of every element under it.
pub open spec fn every_element(e: ElementView, holds: spec_fn(ElementView) -> bool) -> bool
    decreases e,
{
    &&& holds(e)
    &&& match e {
        ElementView::Select { options, .. } => every_element_in_options(options, holds),
        ElementView::Plural { options, .. } => every_element_in_options(options, holds),
        ElementView::Tag { children, .. } => every_element_in(children, holds),
        _ => true,
    }
}

/// Whether `holds` is true of every element in and under `elements`.
pub open spec fn every_element_in(elements: Seq<ElementView>, holds: spec_fn(ElementView) -> bool)
    -> bool
    decreases elements,
{
    forall|k: int| 0 <= k < elements.len() ==> every_element(#[trigger] elements[k], holds)
}

/// Whether `holds` is true of every element under `options`.
pub open spec fn every_element_in_options(
    options: Seq<(Seq<char>, OptionView)>,
    holds: spec_fn(ElementView) -> bool,
) -> bool
    decreases options,
{
    forall|k: int|
        0 <= k < options.len() ==> every_element_in((#[trigger] options[k]).1.value, holds)
}

/// Whether `holds` is true of every list of siblings under the element `e`:
/// the children of each tag and the message of each option.
pub open spec fn every_list_under(e: ElementView, holds: spec_fn(Seq<ElementView>) -> bool) -> bool
    decreases e,
{
    match e {
        ElementView::Select { options, .. } => every_list_in_options(options, holds),
        ElementView::Plural { options, .. } => every_list_in_options(options, holds),
        ElementView::Tag { children, .. } => every_list(children, holds),
        _ => true,
    }
}

/// Whether `holds` is true of `elements` and of every list of siblings under
/// them.
pub open spec fn every_list(elements: Seq<ElementView>, holds: spec_fn(Seq<ElementView>) -> bool)
    -> bool
    decreases elements,
{
    &&& holds(elements)
    &&& forall|k: int| 0 <= k < elements.len() ==> every_list_under(#[trigger] elements[k], holds)
}

/// Whether `holds` is true of every list of siblings under `options`.
pub open spec fn every_list_in_options(
    options: Seq<(Seq<char>, OptionView)>,
    holds: spec_fn(Seq<ElementView>) -> bool,
) -> bool
    decreases options,
{
    forall|k: int| 0 <= k < options.len() ==> every_list((#[trigger] options[k]).1.value, holds)
}

/// Whether `holds` is true of the options of the element `e`, where it has
/// options, and of all options under it.
pub open spec fn every_options_under(
    e: ElementView,
    holds: spec_fn(Seq<(Seq<char>, OptionView)>) -> bool,
) -> bool
    decreases e,
{
    match e {
        ElementView::Select { options, .. } => every_options(options, holds),
        ElementView::Plural { options, .. } => every_options(options, holds),
        ElementView::Tag { children, .. } => every_options_in(children, holds),
        _ => true,
    }
}

/// Whether `holds` is true of all options in and under `elements`.
pub open spec fn every_options_in(
    elements: Seq<ElementView>,
    holds: spec_fn(Seq<(Seq<char>, OptionView)>) -> bool,
) -> bool
    decreases elements,
{
    forall|k: int| 0 <= k < elements.len() ==> every_options_under(#[trigger] elements[k], holds)
}

/// Whether `holds` is true of `options` and of all options under them.
pub open spec fn every_options(
    options: Seq<(Seq<char>, OptionView)>,
    holds: spec_fn(Seq<(Seq<char>, OptionView)>) -> bool,
) -> bool
    decreases options,
{
    &&& holds(options)
    &&& forall|k: int|
        0 <= k < options.len() ==> every_options_in((#[trigger] options[k]).1.value, holds)
}

/// What is true of every element that fits `s` is true of every element of
/// a tree of `s`.
pub proof fn lemma_every_element(
    s: Seq<char>,
    e: ElementView,
    ignore_tag: bool,
    holds: spec_fn(ElementView) -> bool,
)
    requires
        element_ok(s, e, ignore_tag),
        forall|x: ElementView| node_ok(s, x, ignore_tag) ==> #[trigger] holds(x),
    ensures
        every_element(e, holds),
    decreases e,
{
    match e {
        ElementView::Select { options, .. } => lemma_every_element_in_options(
            s,
            options,
            ignore_tag,
            holds,
        ),
        ElementView::Plural { options, .. } => lemma_every_element_in_options(
            s,
            options,
            ignore_tag,
            holds,
        ),
        ElementView::Tag { children, .. } => lemma_every_element_in(
            s,
            children,
            ignore_tag,
            holds,
        ),
        _ => {},
    }
}

/// The same for a list of elements.
pub proof fn lemma_every_element_in(
    s: Seq<char>,
    elements: Seq<ElementView>,
    ignore_tag: bool,
    holds: spec_fn(ElementView) -> bool,
)
    requires
        elements_ok(s, elements, ignore_tag),
        forall|x: ElementView| node_ok(s, x, ignore_tag) ==> #[trigger] holds(x),
    ensures
        every_element_in(elements, holds),
    decreases elements,
{
    assert forall|k: int| 0 <= k < elements.len() implies every_element(
        #[trigger] elements[k],
        holds,
    ) by {
        lemma_every_element(s, elements[k], ignore_tag, holds);
    }
}

/// The same for the messages of options.
pub proof fn lemma_every_element_in_options(
    s: Seq<char>,
    options: Seq<(Seq<char>, OptionView)>,
    ignore_tag: bool,
    holds: spec_fn(ElementView) -> bool,
)
    requires
        options_ok(s, options, ignore_tag),
        forall|x: ElementView| node_ok(s, x, ignore_tag) ==> #[trigger] holds(x),
    ensures
        every_element_in_options(options, holds),
    decreases options,
{
    assert forall|k: int| 0 <= k < options.len() implies every_element_in(
        (#[trigger] options[k]).1.value,
        holds,
    ) by {
        lemma_every_element_in(s, options[k].1.value, ignore_tag, holds);
    }
}

/// What is true of every list whose elements each end where the next begins
/// is true of every list of siblings of a tree of `s`.
pub proof fn lemma_every_list_under(
    s: Seq<char>,
    e: ElementView,
    ignore_tag: bool,
    holds: spec_fn(Seq<ElementView>) -> bool,
)
    requires
        element_ok(s, e, ignore_tag),
        forall|l: Seq<ElementView>| elements_ok(s, l, ignore_tag) ==> #[trigger] holds(l),
    ensures
        every_list_under(e, holds),
    decreases e,
{
    match e {
        ElementView::Select { options, .. } => lemma_every_list_in_options(
            s,
            options,
            ignore_tag,
            holds,
        ),
        ElementView::Plural { options, .. } => lemma_every_list_in_options(
            s,
            options,
            ignore_tag,
            holds,
        ),
        ElementView::Tag { children, .. } => lemma_every_list(s, children, ignore_tag, holds),
        _ => {},
    }
}

/// The same for a list of elements.
pub proof fn lemma_every_list(
    s: Seq<char>,
    elements: Seq<ElementView>,
    ignore_tag: bool,
    holds: spec_fn(Seq<ElementView>) -> bool,
)
    requires
        elements_ok(s, elements, ignore_tag),
        forall|l: Seq<ElementView>| elements_ok(s, l, ignore_tag) ==> #[trigger] holds(l),
    ensures
        every_list(elements, holds),
    decreases elements,
{
    assert forall|k: int| 0 <= k < elements.len() implies every_list_under(
        #[trigger] elements[k],
        holds,
    ) by {
        lemma_every_list_under(s, elements[k], ignore_tag, holds);
    }
}

/// The same for the messages of options.
pub proof fn lemma_every_list_in_options(
    s: Seq<char>,
    options: Seq<(Seq<char>, OptionView)>,
    ignore_tag: bool,
    holds: spec_fn(Seq<ElementView>) -> bool,
)
    requires
        options_ok(s, options, ignore_tag),
        forall|l: Seq<ElementView>| elements_ok(s, l, ignore_tag) ==> #[trigger] holds(l),
    ensures
        every_list_in_options(options, holds),
    decreases options,
{
    assert forall|k: int| 0 <= k < options.len() implies every_list(
        (#[trigger] options[k]).1.value,
        holds,
    ) by {
        lemma_every_list(s, options[k].1.value, ignore_tag, holds);
    }
}

/// What is true of all options of the shape of a tree of `s` is true of all
/// options of a tree of `s`.
pub proof fn lemma_every_options_under(
    s: Seq<char>,
    e: ElementView,
    ignore_tag: bool,
    holds: spec_fn(Seq<(Seq<char>, OptionView)>) -> bool,
)
    requires
        element_ok(s, e, ignore_tag),
        forall|o: Seq<(Seq<char>, OptionView)>|
            options_ok(s, o, ignore_tag) ==> #[trigger] holds(o),
    ensures
        every_options_under(e, holds),
    decreases e,
{
    match e {
        ElementView::Select { options, .. } => lemma_every_options(s, options, ignore_tag, holds),
        ElementView::Plural { options, .. } => lemma_every_options(s, options, ignore_tag, holds),
        ElementView::Tag { children, .. } => lemma_every_options_in(
            s,
            children,
            ignore_tag,
            holds,
        ),
        _ => {},
    }
}

/// The same for a list of elements.
pub proof fn lemma_every_options_in(
    s: Seq<char>,
    elements: Seq<ElementView>,
    ignore_tag: bool,
    holds: spec_fn(Seq<(Seq<char>, OptionView)>) -> bool,
)
    requires
        elements_ok(s, elements, ignore_tag),
        forall|o: Seq<(Seq<char>, OptionView)>|
            options_ok(s, o, ignore_tag) ==> #[trigger] holds(o),
    ensures
        every_options_in(elements, holds),
    decreases elements,
{
    assert forall|k: int| 0 <= k < elements.len() implies every_options_under(
        #[trigger] elements[k],
        holds,
    ) by {
        lemma_every_options_under(s, elements[k], ignore_tag, holds);
    }
}

/// The same for a list of options.
pub proof fn lemma_every_options(
    s: Seq<char>,
    options: Seq<(Seq<char>, OptionView)>,
    ignore_tag: bool,
    holds: spec_fn(Seq<(Seq<char>, OptionView)>) -> bool,
)
    requires
        options_ok(s, options, ignore_tag),
        forall|o: Seq<(Seq<char>, OptionView)>|
            options_ok(s, o, ignore_tag) ==> #[trigger] holds(o),
    ensures
        every_options(options, holds),
    decreases options,
{
    assert forall|k: int| 0 <= k < options.len() implies every_options_in(
        (#[trigger] options[k]).1.value,
        holds,
    ) by {
        lemma_every_options_in(s, options[k].1.value, ignore_tag, holds);
    }
}

} // verus!
