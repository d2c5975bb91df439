//! The abstract syntax tree of an ICU message, the errors a parse can end in,
//! and the mathematical view of each of them that the contracts speak of.
use vstd::prelude::*;

verus! {

/// The kind of an error that stopped the parse of a message.
#[derive(Clone, Copy, Debug, PartialEq, Eq, Structural)]
pub enum ErrorKind {
    /// Argument is unclosed (e.g. `{0`). The parser reports an argument
    /// without its `}` as `ExpectArgumentClosingBrace`.
    UnclosedArgumentBrace,
    /// Argument is empty (e.g. `{}`).
    EmptyArgument,
    /// Argument is malformed (e.g. `{foo!}`).
    MalformedArgument,
    /// Expect an argument type (e.g. `{foo,}`).
    ExpectArgumentType,
    /// Unknown argument type (e.g. `{foo,foo}`).
    InvalidArgumentType,
    /// Expect an argument style (e.g. `{foo, number, }`).
    ExpectArgumentStyle,
    /// An argument is not closed by `}` (e.g. `{0, number`).
    ExpectArgumentClosingBrace,
    /// The number skeleton is invalid.
    InvalidNumberSkeleton,
    /// Expect a number skeleton following the `::` (e.g. `{foo, number, ::}`).
    ExpectNumberSkeleton,
    /// The date time skeleton is invalid.
    InvalidDateTimeSkeleton,
    /// Expect a date time skeleton following the `::` (e.g. `{foo, date, ::}`).
    ExpectDateTimeSkeleton,
    /// Unmatched apostrophes in the argument style (e.g. `{foo, number, 'test`).
    UnclosedQuoteInArgumentStyle,
    /// Missing select argument options (e.g. `{foo, select}`).
    ExpectSelectArgumentOptions,
    /// Expecting an offset value in `plural` or `selectordinal` argument
    /// (e.g. `{foo, plural, offset}`).
    ExpectPluralArgumentOffsetValue,
    /// Offset value in `plural` or `selectordinal` is invalid
    /// (e.g. `{foo, plural, offset: x}`).
    InvalidPluralArgumentOffsetValue,
    /// Expecting a selector in `select` argument (e.g. `{foo, select}`).
    ExpectSelectArgumentSelector,
    /// Expecting a selector in `plural` or `selectordinal` argument
    /// (e.g. `{foo, plural}`).
    ExpectPluralArgumentSelector,
    /// Expecting a message fragment after the `select` selector
    /// (e.g. `{foo, select, apple}`).
    ExpectSelectArgumentSelectorFragment,
    /// Expecting a message fragment after the `plural` or `selectordinal`
    /// selector (e.g. `{foo, plural, one}`).
    ExpectPluralArgumentSelectorFragment,
    /// Selector in `plural` or `selectordinal` is malformed
    /// (e.g. `{foo, plural, =x {#}}`).
    InvalidPluralArgumentSelector,
    /// Duplicate selectors in `plural` or `selectordinal` argument
    /// (e.g. `{foo, plural, one {#} one {#}}`).
    DuplicatePluralArgumentSelector,
    /// Duplicate selectors in `select` argument
    /// (e.g. `{foo, select, apple {apple} apple {apple}}`).
    DuplicateSelectArgumentSelector,
    /// Plural or select argument option must have `other` clause.
    MissingOtherClause,
    /// The tag is malformed (e.g. `<bold!>foo</bold!>`).
    InvalidTag,
    /// The opening tag is never closed (e.g. `<bold>foo`).
    UnclosedTag,
    /// A closing tag without its opening tag, or with another name
    /// (e.g. `<bold>foo</italic>`).
    UnmatchedClosingTag,
}

/// A single position in an ICU message: the UTF-8 byte offset, and the line
/// and column numbers, both counted from 1. The column counts scalar values,
/// not bytes.
#[derive(Clone, Copy, Debug, PartialEq, Eq, Structural)]
pub struct Position {
    pub offset: usize,
    pub line: usize,
    pub column: usize,
}

impl Position {
    /// The position with the given offset, line and column.
    pub fn new(offset: usize, line: usize, column: usize) -> (p: Position)
        ensures
            p == (Position { offset, line, column }),
    {
        Position { offset, line, column }
    }
}

/// The half-open range `[start, end)` of the message that an AST item or an
/// error covers.
#[derive(Clone, Copy, Debug, PartialEq, Eq, Structural)]
pub struct Span {
    /// The start position.
    pub start: Position,
    /// The end position.
    pub end: Position,
}

impl Span {
    /// Create a new span with the given positions.
    pub fn new(start: Position, end: Position) -> (s: Span)
        ensures
            s == (Span { start, end }),
    {
        Span { start, end }
    }
}

/// An error that occurred while parsing an ICU message into an abstract
/// syntax tree.
#[derive(Clone, Debug, PartialEq, Eq)]
pub struct Error {
    /// The kind of error.
    pub kind: ErrorKind,
    /// The message that the parser generated the error from.
    pub message: String,
    /// The span of this error.
    pub span: Span,
}

/// What an `Error` holds, with the message as a sequence of scalar values.
pub struct ErrorView {
    pub kind: ErrorKind,
    pub message: Seq<char>,
    pub span: Span,
}

impl View for Error {
    type V = ErrorView;

    open spec fn view(&self) -> ErrorView {
        ErrorView { kind: self.kind, message: self.message@, span: self.span }
    }
}

/// An abstract syntax tree for an ICU message.
pub type Ast<'s> = Vec<AstElement<'s>>;

/// Whether a plural argument counts (`plural`) or ranks (`selectordinal`).
#[derive(Clone, Copy, Debug, PartialEq, Eq, Structural)]
pub enum PluralType {
    Cardinal,
    Ordinal,
}

/// An element of a message. Names, styles and selectors are parts of the
/// message; the value of a literal is a string of its own.
#[derive(Debug, PartialEq, Eq)]
pub enum AstElement<'s> {
    /// Raw text, with the quoting resolved.
    Literal { value: String, span: Span },
    /// Variable w/o any format, e.g `var` in `this is a {var}`.
    Argument { name: &'s str, span: Span },
    /// Variable w/ number format.
    Number { name: &'s str, span: Span, style: Option<NumberArgStyle<'s>> },
    /// Variable w/ date format.
    Date { name: &'s str, span: Span, style: Option<DateTimeArgStyle<'s>> },
    /// Variable w/ time format.
    Time { name: &'s str, span: Span, style: Option<DateTimeArgStyle<'s>> },
    /// Variable w/ select format.
    Select { name: &'s str, span: Span, options: PluralOrSelectOptions<'s> },
    /// Variable w/ plural format.
    Plural {
        name: &'s str,
        plural_type: PluralType,
        span: Span,
        offset: i64,
        options: PluralOrSelectOptions<'s>,
    },
    /// Only possible within plural argument.
    /// This is the `#` symbol that will be substituted with the count.
    Pound(Span),
    /// XML-like tag.
    Tag { name: &'s str, span: Span, children: Ast<'s> },
}

/// The style of a `number` argument: its text, or the skeleton behind `::`.
#[derive(Clone, Debug, PartialEq, Eq)]
pub enum NumberArgStyle<'s> {
    Style(&'s str),
    Skeleton(NumberSkeleton<'s>),
}

/// A number skeleton: its tokens, and the span of the style that holds it.
#[derive(Clone, Debug, PartialEq, Eq)]
pub struct NumberSkeleton<'s> {
    pub tokens: Vec<NumberSkeletonToken<'s>>,
    pub span: Span,
}

/// A token of a number skeleton: `stem/option/option`.
#[derive(Clone, Debug, PartialEq, Eq)]
pub struct NumberSkeletonToken<'s> {
    pub stem: &'s str,
    pub options: Vec<&'s str>,
}

/// The style of a `date` or `time` argument: its text, or the skeleton
/// behind `::`.
#[derive(Clone, Debug, PartialEq, Eq)]
pub enum DateTimeArgStyle<'s> {
    Style(&'s str),
    Skeleton(DateTimeSkeleton<'s>),
}

/// A date or time skeleton: its pattern, and the span of the style that
/// holds it.
#[derive(Clone, Debug, PartialEq, Eq)]
pub struct DateTimeSkeleton<'s> {
    pub pattern: &'s str,
    pub span: Span,
}

/// The options of a `select`, `plural` or `selectordinal` argument, each with
/// its selector, in the order in which the message gives them.
#[derive(Debug, PartialEq, Eq)]
pub struct PluralOrSelectOptions<'s>(pub Vec<(&'s str, PluralOrSelectOption<'s>)>);

/// One option of a `select` or `plural` argument: the nested message and the
/// span from its `{` to behind its `}`.
#[derive(Debug, PartialEq, Eq)]
pub struct PluralOrSelectOption<'s> {
    pub value: Ast<'s>,
    pub span: Span,
}

/// The views of the strings of `strs`, in order.
pub open spec fn strs_view(strs: Seq<&str>) -> Seq<Seq<char>> {
    strs.map_values(|o: &str| o@)
}

/// The views of `tokens`, in order.
pub open spec fn tokens_view(tokens: Seq<NumberSkeletonToken>) -> Seq<NumberSkeletonTokenView> {
    tokens.map_values(|t: NumberSkeletonToken| t@)
}

/// A token of a number skeleton: `stem/option/option`.
pub struct NumberSkeletonTokenView {
    pub stem: Seq<char>,
    pub options: Seq<Seq<char>>,
}

impl<'s> View for NumberSkeletonToken<'s> {
    type V = NumberSkeletonTokenView;

    open spec fn view(&self) -> NumberSkeletonTokenView {
        NumberSkeletonTokenView {
            stem: self.stem@,
            options: strs_view(self.options@),
        }
    }
}

/// What a `NumberSkeleton` holds.
pub struct NumberSkeletonView {
    pub tokens: Seq<NumberSkeletonTokenView>,
    pub span: Span,
}

impl<'s> View for NumberSkeleton<'s> {
    type V = NumberSkeletonView;

    open spec fn view(&self) -> NumberSkeletonView {
        NumberSkeletonView {
            tokens: tokens_view(self.tokens@),
            span: self.span,
        }
    }
}

/// What a `NumberArgStyle` holds.
pub enum NumberArgStyleView {
    Style(Seq<char>),
    Skeleton(NumberSkeletonView),
}

impl<'s> View for NumberArgStyle<'s> {
    type V = NumberArgStyleView;

    open spec fn view(&self) -> NumberArgStyleView {
        match self {
            NumberArgStyle::Style(s) => NumberArgStyleView::Style(s@),
            NumberArgStyle::Skeleton(k) => NumberArgStyleView::Skeleton(k@),
        }
    }
}

/// What a `DateTimeSkeleton` holds.
pub struct DateTimeSkeletonView {
    pub pattern: Seq<char>,
    pub span: Span,
}

impl<'s> View for DateTimeSkeleton<'s> {
    type V = DateTimeSkeletonView;

    open spec fn view(&self) -> DateTimeSkeletonView {
        DateTimeSkeletonView { pattern: self.pattern@, span: self.span }
    }
}

/// What a `DateTimeArgStyle` holds.
pub enum DateTimeArgStyleView {
    Style(Seq<char>),
    Skeleton(DateTimeSkeletonView),
}

impl<'s> View for DateTimeArgStyle<'s> {
    type V = DateTimeArgStyleView;

    open spec fn view(&self) -> DateTimeArgStyleView {
        match self {
            DateTimeArgStyle::Style(s) => DateTimeArgStyleView::Style(s@),
            DateTimeArgStyle::Skeleton(k) => DateTimeArgStyleView::Skeleton(k@),
        }
    }
}

/// The view of the style of a `number` argument, if it has one.
pub open spec fn number_style_view(style: Option<NumberArgStyle>) -> Option<NumberArgStyleView> {
    match style {
        Some(s) => Some(s@),
        None => None,
    }
}

/// The view of the style of a `date` or `time` argument, if it has one.
pub open spec fn date_time_style_view(style: Option<DateTimeArgStyle>) -> Option<
    DateTimeArgStyleView,
> {
    match style {
        Some(s) => Some(s@),
        None => None,
    }
}

/// One option of a `select` or `plural` argument: the nested message and the
/// span from its `{` to behind its `}`.
pub struct OptionView {
    pub value: Seq<ElementView>,
    pub span: Span,
}

/// An element of a message, with every string as a sequence of scalar values
/// and every list as a sequence.
pub enum ElementView {
    Literal { value: Seq<char>, span: Span },
    Argument { name: Seq<char>, span: Span },
    Number { name: Seq<char>, span: Span, style: Option<NumberArgStyleView> },
    Date { name: Seq<char>, span: Span, style: Option<DateTimeArgStyleView> },
    Time { name: Seq<char>, span: Span, style: Option<DateTimeArgStyleView> },
    Select { name: Seq<char>, span: Span, options: Seq<(Seq<char>, OptionView)> },
    Plural {
        name: Seq<char>,
        plural_type: PluralType,
        span: Span,
        offset: i64,
        options: Seq<(Seq<char>, OptionView)>,
    },
    Pound(Span),
    Tag { name: Seq<char>, span: Span, children: Seq<ElementView> },
}

impl ElementView {
    /// The span of the element, whatever its kind.
    pub open spec fn span(self) -> Span {
        match self {
            ElementView::Literal { span, .. } => span,
            ElementView::Argument { span, .. } => span,
            ElementView::Number { span, .. } => span,
            ElementView::Date { span, .. } => span,
            ElementView::Time { span, .. } => span,
            ElementView::Select { span, .. } => span,
            ElementView::Plural { span, .. } => span,
            ElementView::Pound(span) => span,
            ElementView::Tag { span, .. } => span,
        }
    }
}

/// The view of a list of elements: the views of its elements, in order.
pub open spec fn ast_view(ast: &Vec<AstElement>) -> Seq<ElementView>
    decreases ast,
{
    Seq::new(
        ast.len() as nat,
        |i: int|
            if 0 <= i < ast.len() {
                element_view(&ast[i])
            } else {
                arbitrary()
            },
    )
}

/// The view of an option: the view of its message, and its span.
pub open spec fn option_view(option: &PluralOrSelectOption) -> OptionView
    decreases option,
{
    OptionView { value: ast_view(&option.value), span: option.span }
}

/// The view of a list of options: each selector with the view of its option,
/// in order.
pub open spec fn options_view(options: &Vec<(&str, PluralOrSelectOption)>) -> Seq<
    (Seq<char>, OptionView),
>
    decreases options,
{
    Seq::new(
        options.len() as nat,
        |i: int|
            if 0 <= i < options.len() {
                (options[i].0@, option_view(&options[i].1))
            } else {
                arbitrary()
            },
    )
}

/// The view of an element: the same element over sequences.
pub open spec fn element_view(element: &AstElement) -> ElementView
    decreases element,
{
    match element {
        AstElement::Literal { value, span } => ElementView::Literal { value: value@, span: *span },
        AstElement::Argument { name, span } => ElementView::Argument { name: name@, span: *span },
        AstElement::Number { name, span, style } => ElementView::Number {
            name: name@,
            span: *span,
            style: number_style_view(*style),
        },
        AstElement::Date { name, span, style } => ElementView::Date {
            name: name@,
            span: *span,
            style: date_time_style_view(*style),
        },
        AstElement::Time { name, span, style } => ElementView::Time {
            name: name@,
            span: *span,
            style: date_time_style_view(*style),
        },
        AstElement::Select { name, span, options } => ElementView::Select {
            name: name@,
            span: *span,
            options: options_view(&options.0),
        },
        AstElement::Plural { name, plural_type, span, offset, options } => ElementView::Plural {
            name: name@,
            plural_type: *plural_type,
            span: *span,
            offset: *offset,
            options: options_view(&options.0),
        },
        AstElement::Pound(span) => ElementView::Pound(*span),
        AstElement::Tag { name, span, children } => ElementView::Tag {
            name: name@,
            span: *span,
            children: ast_view(children),
        },
    }
}

impl<'s> View for AstElement<'s> {
    type V = ElementView;

    open spec fn view(&self) -> ElementView {
        element_view(self)
    }
}

impl<'s> View for PluralOrSelectOption<'s> {
    type V = OptionView;

    open spec fn view(&self) -> OptionView {
        option_view(self)
    }
}

impl<'s> View for PluralOrSelectOptions<'s> {
    type V = Seq<(Seq<char>, OptionView)>;

    open spec fn view(&self) -> Seq<(Seq<char>, OptionView)> {
        options_view(&self.0)
    }
}

/// The view of a list with one more element is the view of the list with
/// the view of the element behind it.
pub proof fn lemma_ast_view_push(before: &Vec<AstElement>, after: &Vec<AstElement>, last: &AstElement)
    requires
        after@ == before@.push(*last),
    ensures
        ast_view(after) == ast_view(before).push(element_view(last)),
{
    assert(ast_view(after) =~= ast_view(before).push(element_view(last)));
}

/// The view of a list of options with one more option.
pub proof fn lemma_options_view_push(
    before: &Vec<(&str, PluralOrSelectOption)>,
    after: &Vec<(&str, PluralOrSelectOption)>,
    selector: &str,
    option: &PluralOrSelectOption,
)
    requires
        after@ == before@.push((selector, *option)),
    ensures
        options_view(after) == options_view(before).push((selector@, option_view(option))),
{
    assert(options_view(after) =~= options_view(before).push((selector@, option_view(option))));
}

/// A copy of a list of elements.
pub fn clone_ast<'s>(ast: &Vec<AstElement<'s>>) -> (copy: Vec<AstElement<'s>>)
    ensures
        ast_view(&copy) == ast_view(ast),
    decreases ast,
{
    let mut copy: Vec<AstElement<'s>> = Vec::new();
    let mut k: usize = 0;
    while k < ast.len()
        invariant
            k <= ast.len(),
            copy.len() == k,
            forall|j: int| 0 <= j < k ==> element_view(&copy[j]) == element_view(&ast[j]),
        decreases ast.len() - k,
    {
        let element = clone_element(&ast[k]);
        copy.push(element);
        k += 1;
    }
    assert(ast_view(&copy) =~= ast_view(ast));
    copy
}

/// A copy of a list of options.
pub fn clone_options<'s>(options: &Vec<(&'s str, PluralOrSelectOption<'s>)>) -> (copy: Vec<
    (&'s str, PluralOrSelectOption<'s>),
>)
    ensures
        options_view(&copy) == options_view(options),
    decreases options,
{
    let mut copy: Vec<(&'s str, PluralOrSelectOption<'s>)> = Vec::new();
    let mut k: usize = 0;
    while k < options.len()
        invariant
            k <= options.len(),
            copy.len() == k,
            forall|j: int|
                0 <= j < k ==> copy[j].0@ == options[j].0@ && option_view(&copy[j].1)
                    == option_view(&options[j].1),
        decreases options.len() - k,
    {
        let value = clone_ast(&options[k].1.value);
        copy.push((options[k].0, PluralOrSelectOption { value, span: options[k].1.span }));
        k += 1;
    }
    assert(options_view(&copy) =~= options_view(options));
    copy
}

/// A copy of an element.
pub fn clone_element<'s>(element: &AstElement<'s>) -> (copy: AstElement<'s>)
    ensures
        element_view(&copy) == element_view(element),
    decreases element,
{
    match element {
        AstElement::Literal { value, span } => AstElement::Literal {
            value: value.clone(),
            span: *span,
        },
        AstElement::Argument { name, span } => AstElement::Argument { name, span: *span },
        AstElement::Number { name, span, style } => AstElement::Number {
            name,
            span: *span,
            style: match style {
                Some(NumberArgStyle::Style(text)) => Some(NumberArgStyle::Style(text)),
                Some(NumberArgStyle::Skeleton(skeleton)) => Some(
                    NumberArgStyle::Skeleton(clone_number_skeleton(skeleton)),
                ),
                None => None,
            },
        },
        AstElement::Date { name, span, style } => AstElement::Date {
            name,
            span: *span,
            style: clone_date_time_style(style),
        },
        AstElement::Time { name, span, style } => AstElement::Time {
            name,
            span: *span,
            style: clone_date_time_style(style),
        },
        AstElement::Select { name, span, options } => AstElement::Select {
            name,
            span: *span,
            options: PluralOrSelectOptions(clone_options(&options.0)),
        },
        AstElement::Plural { name, plural_type, span, offset, options } => AstElement::Plural {
            name,
            plural_type: *plural_type,
            span: *span,
            offset: *offset,
            options: PluralOrSelectOptions(clone_options(&options.0)),
        },
        AstElement::Pound(span) => AstElement::Pound(*span),
        AstElement::Tag { name, span, children } => AstElement::Tag {
            name,
            span: *span,
            children: clone_ast(children),
        },
    }
}

/// A copy of the style of a `date` or `time` argument.
pub fn clone_date_time_style<'s>(style: &Option<DateTimeArgStyle<'s>>) -> (copy: Option<
    DateTimeArgStyle<'s>,
>)
    ensures
        date_time_style_view(copy) == date_time_style_view(*style),
{
    match style {
        Some(DateTimeArgStyle::Style(text)) => Some(DateTimeArgStyle::Style(text)),
        Some(DateTimeArgStyle::Skeleton(skeleton)) => Some(
            DateTimeArgStyle::Skeleton(
                DateTimeSkeleton { pattern: skeleton.pattern, span: skeleton.span },
            ),
        ),
        None => None,
    }
}

/// A copy of a number skeleton.
pub fn clone_number_skeleton<'s>(skeleton: &NumberSkeleton<'s>) -> (copy: NumberSkeleton<'s>)
    ensures
        copy@ == skeleton@,
{
    let mut tokens: Vec<NumberSkeletonToken<'s>> = Vec::new();
    let mut k: usize = 0;
    while k < skeleton.tokens.len()
        invariant
            k <= skeleton.tokens.len(),
            tokens.len() == k,
            forall|j: int| 0 <= j < k ==> tokens[j]@ == skeleton.tokens[j]@,
        decreases skeleton.tokens.len() - k,
    {
        let token = &skeleton.tokens[k];
        let mut options: Vec<&'s str> = Vec::new();
        let mut n: usize = 0;
        while n < token.options.len()
            invariant
                n <= token.options.len(),
                options.len() == n,
                forall|j: int| 0 <= j < n ==> options[j]@ == token.options[j]@,
            decreases token.options.len() - n,
        {
            options.push(token.options[n]);
            n += 1;
        }
        assert(strs_view(options@) =~= strs_view(token.options@));
        tokens.push(NumberSkeletonToken { stem: token.stem, options });
        k += 1;
    }
    assert(tokens_view(tokens@) =~= tokens_view(skeleton.tokens@));
    NumberSkeleton { tokens, span: skeleton.span }
}

impl<'s> Clone for AstElement<'s> {
    fn clone(&self) -> (copy: Self)
        ensures
            copy@ == self@,
    {
        clone_element(self)
    }
}

impl<'s> Clone for PluralOrSelectOption<'s> {
    fn clone(&self) -> (copy: Self)
        ensures
            copy@ == self@,
    {
        PluralOrSelectOption { value: clone_ast(&self.value), span: self.span }
    }
}

impl<'s> Clone for PluralOrSelectOptions<'s> {
    fn clone(&self) -> (copy: Self)
        ensures
            copy@ == self@,
    {
        PluralOrSelectOptions(clone_options(&self.0))
    }
}

} // verus!
