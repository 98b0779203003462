//! Error values produced by a parse.
use vstd::prelude::*;

verus! {

/// `ariadne::Color`, the colour of an extra label in a rendered report.
#[verifier::external_type_specification]
#[verifier::external_body]
pub struct ExColor(ariadne::Color);

/// An extra source-span label to attach to a report, pointing at a different location
/// than the primary error span.
pub struct ExtraLabel {
    /// Highlighted byte range.
    pub span: (usize, usize),
    /// Text shown at the span.
    pub message: String,
    /// Colour of the highlight.
    pub color: ariadne::Color,
}

/// Optional annotations of a [`FurthestFailError`].
pub struct ParserErrorAnnotations {
    /// Shown as "note: ..." below the report.
    pub notes: Vec<String>,
    /// Shown as "help: ..." below the report.
    pub help: Vec<String>,
    /// Additional highlighted spans.
    pub extra_labels: Vec<ExtraLabel>,
}

impl ParserErrorAnnotations {
    /// No annotations.
    pub fn new() -> (a: Self)
        ensures
            a.notes@.len() == 0,
            a.help@.len() == 0,
            a.extra_labels@.len() == 0,
    {
        ParserErrorAnnotations { notes: Vec::new(), help: Vec::new(), extra_labels: Vec::new() }
    }
}

/// The furthest point a parse reached, with the labels of what was expected there.
pub struct FurthestFailError {
    /// Byte range of the failure.
    pub span: (usize, usize),
    /// Labels of what was expected, without repetitions.
    pub expected: Vec<String>,
    /// Notes, help texts and extra labels.
    pub annotations: ParserErrorAnnotations,
}

/// An error indicating that a required token or construct was missing at a position.
pub struct MissingError {
    /// Byte range where the construct was expected (empty: an insertion point).
    pub span: (usize, usize),
    /// What was missing.
    pub message: String,
}

/// An error indicating that a construct that should not be there was found.
pub struct UnwantedError {
    /// Byte range of the unwanted construct.
    pub span: (usize, usize),
    /// What was unwanted.
    pub message: String,
}

/// A diagnostic collected during a parse.
pub enum ParserError {
    /// A hard failure at the furthest point reached.
    FurthestFail(FurthestFailError),
    /// Missing syntax that recovery inserted.
    Missing(MissingError),
    /// Unwanted syntax that recovery skipped.
    Unwanted(UnwantedError),
}

/// Model of a [`FurthestFailError`]; the colours of its extra labels are given by
/// [`extra_label_colors`].
pub struct FurthestFailView {
    /// Byte range of the failure.
    pub span: (usize, usize),
    /// Labels of what was expected.
    pub expected: Seq<Seq<char>>,
    /// Notes.
    pub notes: Seq<Seq<char>>,
    /// Help texts.
    pub help: Seq<Seq<char>>,
    /// Extra labels: span and message.
    pub extra_labels: Seq<((usize, usize), Seq<char>)>,
}

/// The views of a list of strings.
pub open spec fn string_views(v: Seq<String>) -> Seq<Seq<char>> {
    v.map_values(|s: String| s@)
}

/// The span and message of each extra label.
pub open spec fn extra_label_views(v: Seq<ExtraLabel>) -> Seq<((usize, usize), Seq<char>)> {
    v.map_values(|l: ExtraLabel| (l.span, l.message@))
}

/// The colour of each extra label of `e`, in order.
pub open spec fn extra_label_colors(e: FurthestFailError) -> Seq<ariadne::Color> {
    e.annotations.extra_labels@.map_values(|l: ExtraLabel| l.color)
}

impl View for FurthestFailError {
    type V = FurthestFailView;

    open spec fn view(&self) -> FurthestFailView {
        FurthestFailView {
            span: self.span,
            expected: string_views(self.expected@),
            notes: string_views(self.annotations.notes@),
            help: string_views(self.annotations.help@),
            extra_labels: extra_label_views(self.annotations.extra_labels@),
        }
    }
}

/// Model of a [`ParserError`].
pub enum ParserErrorView {
    /// A hard failure at the furthest point reached.
    FurthestFail(FurthestFailView),
    /// Missing syntax: span and message.
    Missing((usize, usize), Seq<char>),
    /// Unwanted syntax: span and message.
    Unwanted((usize, usize), Seq<char>),
}

impl View for ParserError {
    type V = ParserErrorView;

    open spec fn view(&self) -> ParserErrorView {
        match self {
            ParserError::FurthestFail(e) => ParserErrorView::FurthestFail(e@),
            ParserError::Missing(e) => ParserErrorView::Missing(e.span, e.message@),
            ParserError::Unwanted(e) => ParserErrorView::Unwanted(e.span, e.message@),
        }
    }
}

/// Error that aborts a match.
pub enum MatcherRunError {
    /// A committed rule failed; the error describes the furthest failure.
    FurthestFail(FurthestFailError),
    /// A rule needs error recovery: the whole input must be parsed again in recovery mode.
    RetryRerunNeeded,
}

/// Model of a [`MatcherRunError`].
pub enum RunErrorView {
    /// A committed rule failed with this furthest failure.
    FurthestFail(FurthestFailView),
    /// The input must be parsed again in recovery mode.
    RetryRerunNeeded,
}

impl View for MatcherRunError {
    type V = RunErrorView;

    open spec fn view(&self) -> RunErrorView {
        match self {
            MatcherRunError::FurthestFail(e) => RunErrorView::FurthestFail(e@),
            MatcherRunError::RetryRerunNeeded => RunErrorView::RetryRerunNeeded,
        }
    }
}

/// The span of a matched (or missing) construct, handed to diagnostic factories.
#[derive(Clone, Copy, PartialEq, Eq, Structural)]
pub struct MatchDiagCtx {
    /// Start position.
    pub start: usize,
    /// End position.
    pub end: usize,
}

impl MatchDiagCtx {
    /// An empty span at `pos`.
    pub fn insertion_point(pos: usize) -> (c: Self)
        ensures
            c.start == pos,
            c.end == pos,
    {
        MatchDiagCtx { start: pos, end: pos }
    }
}

/// Builds the diagnostic recorded by [`crate::matcher::err_if`] matchers.
pub trait BuildInlineError {
    /// The diagnostic built for `ctx`.
    spec fn spec_build(&self, ctx: MatchDiagCtx) -> ParserErrorView;

    /// Build the diagnostic for `ctx`.
    fn build_inline_error(&self, ctx: MatchDiagCtx) -> (e: ParserError)
        ensures
            e@ == self.spec_build(ctx),
    ;
}

/// Factory of [`MissingError`] diagnostics with a fixed message.
pub struct MissingSyntax(pub String);

/// Factory of [`UnwantedError`] diagnostics with a fixed message.
pub struct UnwantedSyntax(pub String);

impl BuildInlineError for MissingSyntax {
    open spec fn spec_build(&self, ctx: MatchDiagCtx) -> ParserErrorView {
        ParserErrorView::Missing((ctx.start, ctx.end), self.0@)
    }

    fn build_inline_error(&self, ctx: MatchDiagCtx) -> (e: ParserError) {
        ParserError::Missing(MissingError { span: (ctx.start, ctx.end), message: self.0.clone() })
    }
}

impl BuildInlineError for UnwantedSyntax {
    open spec fn spec_build(&self, ctx: MatchDiagCtx) -> ParserErrorView {
        ParserErrorView::Unwanted((ctx.start, ctx.end), self.0@)
    }

    fn build_inline_error(&self, ctx: MatchDiagCtx) -> (e: ParserError) {
        ParserError::Unwanted(UnwantedError { span: (ctx.start, ctx.end), message: self.0.clone() })
    }
}

impl MissingError {
    /// Wrap this error as a [`ParserError`].
    pub fn as_parser_error(self) -> (e: ParserError)
        ensures
            e == ParserError::Missing(self),
    {
        ParserError::Missing(self)
    }
}

impl UnwantedError {
    /// Wrap this error as a [`ParserError`].
    pub fn as_parser_error(self) -> (e: ParserError)
        ensures
            e == ParserError::Unwanted(self),
    {
        ParserError::Unwanted(self)
    }
}

impl FurthestFailError {
    /// Wrap this error as a [`ParserError`].
    pub fn as_parser_error(self) -> (e: ParserError)
        ensures
            e == ParserError::FurthestFail(self),
    {
        ParserError::FurthestFail(self)
    }
}

/// A furthest failure at `span` with nothing recorded as expected.
pub open spec fn bare_failure(span: (usize, usize)) -> FurthestFailView {
    FurthestFailView {
        span,
        expected: Seq::empty(),
        notes: Seq::empty(),
        help: Seq::empty(),
        extra_labels: Seq::empty(),
    }
}

impl MatcherRunError {
    /// The error as a furthest failure: a furthest failure stays as it is; a request for a
    /// rerun becomes a failure at `span` with nothing expected.
    pub fn into_furthest_fail_for_parser(self, span: (usize, usize)) -> (e: FurthestFailError)
        ensures
            e@ == match self@ {
                RunErrorView::FurthestFail(f) => f,
                RunErrorView::RetryRerunNeeded => bare_failure(span),
            },
    {
        match self {
            MatcherRunError::FurthestFail(e) => e,
            MatcherRunError::RetryRerunNeeded => {
                let e = FurthestFailError {
                    span,
                    expected: Vec::new(),
                    annotations: ParserErrorAnnotations::new(),
                };
                proof {
                    assert(e@.expected =~= Seq::<Seq<char>>::empty());
                    assert(e@.notes =~= Seq::<Seq<char>>::empty());
                    assert(e@.help =~= Seq::<Seq<char>>::empty());
                    assert(e@.extra_labels =~= Seq::<((usize, usize), Seq<char>)>::empty());
                }
                e
            },
        }
    }
}

} // verus!
