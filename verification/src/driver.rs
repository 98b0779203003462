//! The whole-input driver.
//!
//! A parse runs the parser inside a committed rule that also requires the end of input:
//! `commit_on((), (bind(parser), negative_lookahead(AnyToken)))`. A first pass runs without
//! error recovery; where it asks for a rerun, the context is reset and a second pass runs
//! in recovery mode, where recovery matchers record their diagnostics and a committed miss
//! reports its furthest failure.
use vstd::prelude::*;
use crate::context::{CaptureValue, Outcome, ParserContext, State, error_views, exec_state, memo_ok};
use crate::error::{FurthestFailError, FurthestFailView, MatcherRunError, ParserError, ParserErrorView, RunErrorView, bare_failure};
use crate::error_handler::{EmptyErrorHandler, ErrorHandler, HandlerModel};
use crate::input::{Input, InputStream};
use crate::matcher::any_token::AnyToken;
use crate::matcher::commit_matcher::{CommitMatcher, commit_on};
use crate::matcher::lookahead::{NegativeLookahead, negative_lookahead};
use crate::matcher::{Matcher, NoMemoizeBacktrackingRunner, lemma_run_bounds, run_match, spec_run};
use crate::memo_store::{MemoEntry, MemoParserId};
use crate::parser::Parser;
use crate::parser::capture::{ResultBinder, SingleProperty, bind_result, captured_of, fill_slots};

verus! {

/// The rule a whole-input parse runs: `parser`, then the end of input, committed from the
/// start.
pub type WholeInput<P> = CommitMatcher<(), (ResultBinder<P, SingleProperty>, NegativeLookahead<AnyToken>)>;

/// The rule a whole-input parse runs for `parser`.
pub open spec fn whole_input<P>(parser: P) -> WholeInput<P> {
    CommitMatcher {
        commit_on: (),
        then_matcher: (
            ResultBinder { parser, property: SingleProperty { index: 0 } },
            NegativeLookahead { checker: AnyToken },
        ),
    }
}

/// The state a pass starts from: at the start, nothing bound, recorded or memoized, and an
/// error handler that records nothing.
pub open spec fn fresh_state<V>() -> State<V> {
    State {
        pos: 0,
        binds: Seq::empty(),
        errors: Seq::empty(),
        memo: Map::empty(),
        match_start: 0,
        eh: HandlerModel::Empty,
    }
}

/// The result of a whole-input parse.
pub enum ParseModel<V> {
    /// The output, with the diagnostics recorded on the way.
    Parsed(V, Seq<ParserErrorView>),
    /// A hard failure.
    Failed(FurthestFailView),
    /// The pass asks for a rerun in recovery mode; it stopped at this position.
    Rerun(int),
    /// The library panics or does not return.
    Stuck,
}

/// The value bound to the single slot of the whole-input rule; `None` where it is no
/// parser output, and [`ParseModel::Stuck`] where the slots cannot be filled.
pub open spec fn pass_of<V>(o: Outcome<bool>, s2: State<V>) -> ParseModel<V> {
    match o {
        Outcome::Done(true) => match captured_of((1usize, 0usize, 0usize), s2.binds) {
            Some(c) => match c.single[0] {
                CaptureValue::Value(v) => ParseModel::Parsed(v, s2.errors),
                CaptureValue::Span(_, _) => ParseModel::Failed(bare_failure((s2.pos as usize, s2.pos as usize))),
            },
            None => ParseModel::Stuck,
        },
        Outcome::Done(false) => ParseModel::Failed(bare_failure((s2.pos as usize, s2.pos as usize))),
        Outcome::Failed(RunErrorView::FurthestFail(e)) => ParseModel::Failed(e),
        Outcome::Failed(RunErrorView::RetryRerunNeeded) => ParseModel::Rerun(s2.pos),
        Outcome::Stuck => ParseModel::Stuck,
    }
}

/// One pass of a whole-input parse in mode `rec`.
pub open spec fn spec_pass<Inp: Input, V, P: Parser<Inp, V, Output = V>>(
    parser: P,
    inp: Inp,
    rec: bool,
) -> ParseModel<V> {
    let (o, s2) = spec_run::<Inp, V, WholeInput<P>>(whole_input(parser), inp, rec, fresh_state());
    pass_of(o, s2)
}

/// A whole-input parse: a first pass, and where it asks for a rerun, a pass in recovery
/// mode. A recovery pass that asks for a rerun fails where it stopped.
pub open spec fn spec_parse_whole<Inp: Input, V, P: Parser<Inp, V, Output = V>>(
    parser: P,
    inp: Inp,
) -> ParseModel<V> {
    match spec_pass::<Inp, V, P>(parser, inp, false) {
        ParseModel::Rerun(_) => match spec_pass::<Inp, V, P>(parser, inp, true) {
            ParseModel::Rerun(p) => ParseModel::Failed(bare_failure((p as usize, p as usize))),
            r => r,
        },
        r => r,
    }
}

/// A whole-input parse runs at most two passes and never ends asking for another: its
/// result is that of the first pass unless the first pass asks for a rerun, and then that
/// of the recovery pass, where a further request for a rerun becomes a failure.
pub proof fn lemma_parse_whole_passes<Inp: Input, V, P: Parser<Inp, V, Output = V>>(parser: P, inp: Inp)
    ensures
        !(spec_parse_whole::<Inp, V, P>(parser, inp) is Rerun),
        !(spec_pass::<Inp, V, P>(parser, inp, false) is Rerun) ==> spec_parse_whole::<Inp, V, P>(
            parser,
            inp,
        ) == spec_pass::<Inp, V, P>(parser, inp, false),
        spec_pass::<Inp, V, P>(parser, inp, false) is Rerun && !(spec_pass::<Inp, V, P>(
            parser,
            inp,
            true,
        ) is Rerun) ==> spec_parse_whole::<Inp, V, P>(parser, inp) == spec_pass::<Inp, V, P>(
            parser,
            inp,
            true,
        ),
{
}

/// An exec result agrees with a parse model.
pub open spec fn parse_result_matches<V>(
    r: Result<(V, Vec<ParserError>), FurthestFailError>,
    m: ParseModel<V>,
) -> bool {
    match r {
        Ok((v, errs)) => m == ParseModel::Parsed(v, error_views(errs@)),
        Err(e) => m == ParseModel::<V>::Failed(e@),
    }
}

/// One pass over `input` from the start (see [`spec_pass`]).
fn run_pass<Inp: Input, V, P: Parser<Inp, V, Output = V>>(
    rule: &WholeInput<P>,
    ctx: &mut ParserContext<V>,
    input: &mut InputStream<Inp>,
) -> (r: Result<(V, Vec<ParserError>), Result<FurthestFailError, usize>>)
    requires
        rule.then_matcher.0.parser.wf(),
        *rule == whole_input(rule.then_matcher.0.parser),
        old(input).pos == 0,
        old(input).input.spec_len() <= usize::MAX,
        old(ctx).error_stack@.len() == 0,
        old(ctx).memo_store@ == Map::<(MemoParserId, usize), MemoEntry<V>>::empty(),
        old(ctx).match_start == 0,
        !(spec_pass::<Inp, V, P>(rule.then_matcher.0.parser, old(input).input, old(ctx).is_in_error_recovery) is Stuck),
    ensures
        final(input).input == old(input).input,
        ({
            let m = spec_pass::<Inp, V, P>(rule.then_matcher.0.parser, old(input).input, old(ctx).is_in_error_recovery);
            match r {
                Ok((v, errs)) => m == ParseModel::Parsed(v, error_views(errs@)),
                Err(Ok(e)) => m == ParseModel::<V>::Failed(e@),
                Err(Err(p)) => m == ParseModel::<V>::Rerun(p as int),
            }
        }),
{
    let mut eh = EmptyErrorHandler::new(0);
    let mut runner = NoMemoizeBacktrackingRunner::new();
    proof {
        assert(runner.stack@ =~= Seq::<crate::context::Bound<V>>::empty());
        assert(crate::context::error_views(ctx.error_stack@) =~= Seq::<ParserErrorView>::empty());
        assert(exec_state(ctx, runner.stack@, &eh, input) == fresh_state::<V>());
    }
    match run_match(rule, ctx, &mut runner, &mut eh, input) {
        Ok(true) => {
            let c = fill_slots((1usize, 0usize, 0usize), runner.stack);
            let mut single = c.single;
            match single.remove(0) {
                CaptureValue::Value(v) => {
                    let mut errs: Vec<ParserError> = Vec::new();
                    std::mem::swap(&mut ctx.error_stack, &mut errs);
                    Ok((v, errs))
                },
                CaptureValue::Span(_, _) => {
                    let p = input.get_pos();
                    Err(Ok(MatcherRunError::RetryRerunNeeded.into_furthest_fail_for_parser((p, p))))
                },
            }
        },
        Ok(false) => {
            let p = input.get_pos();
            Err(Ok(MatcherRunError::RetryRerunNeeded.into_furthest_fail_for_parser((p, p))))
        },
        Err(MatcherRunError::FurthestFail(e)) => Err(Ok(e)),
        Err(MatcherRunError::RetryRerunNeeded) => Err(Err(input.get_pos())),
    }
}

/// Parse the whole of `input` with `parser` (see [`spec_parse_whole`]): the output and the
/// diagnostics recorded on the way, or the furthest failure.
pub fn parse_whole_input<Inp: Input, V, P: Parser<Inp, V, Output = V>>(parser: P, input: Inp) -> (r: Result<
    (V, Vec<ParserError>),
    FurthestFailError,
>)
    requires
        parser.wf(),
        !(spec_parse_whole::<Inp, V, P>(parser, input) is Stuck),
    ensures
        parse_result_matches(r, spec_parse_whole::<Inp, V, P>(parser, input)),
{
    let ghost p0 = parser;
    // The input's end position fits a `usize`.
    let _ = input.len();
    let mut context: ParserContext<V> = ParserContext::new();
    let mut stream = InputStream::new(input);
    let start_pos = stream.get_pos();
    let rule = commit_on((), (bind_result(parser, SingleProperty::new(0)), negative_lookahead(AnyToken)));
    context.is_in_error_recovery = false;
    proof {
        assert(rule == whole_input(p0));
    }
    match run_pass(&rule, &mut context, &mut stream) {
        Ok(out) => Ok(out),
        Err(Ok(e)) => Err(e),
        Err(Err(_)) => {
            stream.set_pos(start_pos);
            context.reset_for_global_recovery_reparse();
            context.is_in_error_recovery = true;
            match run_pass(&rule, &mut context, &mut stream) {
                Ok(out) => Ok(out),
                Err(Ok(e)) => Err(e),
                Err(Err(p)) => Err(MatcherRunError::RetryRerunNeeded.into_furthest_fail_for_parser((p, p))),
            }
        },
    }
}

/// Parse all of `src` with `parser` (see [`parse_whole_input`]).
pub fn parse<'a, V, P: Parser<&'a str, V, Output = V>>(parser: P, src: &'a str) -> (r: Result<
    (V, Vec<ParserError>),
    FurthestFailError,
>)
    requires
        parser.wf(),
        !(spec_parse_whole::<&'a str, V, P>(parser, src) is Stuck),
    ensures
        parse_result_matches(r, spec_parse_whole::<&'a str, V, P>(parser, src)),
{
    parse_whole_input(parser, src)
}

} // verus!
