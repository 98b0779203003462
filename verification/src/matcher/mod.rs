//! Matchers: grammar fragments that consume input and bind values into a capture.
//!
//! A matcher's behaviour is given by [`Matcher::spec_match`], a function from the input,
//! the mode (error recovery or not) and a [`State`] to an [`Outcome`] and the state after
//! the run. [`run_match`] wraps one matcher run with the bookkeeping every rule gets:
//! position restore and capture/diagnostic truncation on a miss, and error-handler
//! registration.
use vstd::prelude::*;
use crate::context::{memo_ok, Bound, Outcome, ParserContext, State, exec_state, result_matches, same_but_handler};
use crate::error::{MatcherRunError, RunErrorView};
use crate::error_handler::{ErrorHandler, HandlerModel, MultiErrorHandlerIndex, opt_label};
use crate::input::{Input, InputStream};

pub mod any_token;
pub mod commit_matcher;
pub mod err_if;
pub mod error_contextualizer;
pub mod if_error;
pub mod ignore_result;
pub mod insert_on_error;
pub mod lookahead;
pub mod multiple;
pub mod one_of;
pub mod one_or_more;
pub mod parser_matcher;
pub mod optional;
pub mod sequence;
pub mod string;
pub mod to_parser;
pub mod unwanted;

verus! {

broadcast use vstd::seq::group_seq_axioms;

/// Stack of values bound by a running capture; on a miss, the values bound inside the failed
/// branch are dropped.
pub struct NoMemoizeBacktrackingRunner<V> {
    /// Bound values, in binding order.
    pub stack: Vec<Bound<V>>,
}

impl<V> NoMemoizeBacktrackingRunner<V> {
    /// An empty runner.
    pub fn new() -> (r: Self)
        ensures
            r.stack@.len() == 0,
    {
        NoMemoizeBacktrackingRunner { stack: Vec::new() }
    }
}

/// A grammar fragment over input `Inp` that binds values of type `V`.
pub trait Matcher<Inp: Input, V>: Sized {
    /// Well-formedness of the matcher (closures inside are total and deterministic).
    spec fn wf(&self) -> bool;

    /// Label reported to the error handler when a run of this matcher fails.
    spec fn spec_label(&self) -> Option<Seq<char>>;

    /// One run of this matcher in mode `rec` (error recovery) from state `s`.
    spec fn spec_match(&self, inp: Inp, rec: bool, s: State<V>) -> (Outcome<bool>, State<V>);

    /// A run never moves past the end of the input, and a match never moves backwards.
    proof fn lemma_match_bounds(&self, inp: Inp, rec: bool, s: State<V>)
        requires
            self.wf(),
            s.valid(inp.spec_len()),
        ensures
            ({
                let (o, s2) = self.spec_match(inp, rec, s);
                &&& s2.valid(inp.spec_len())
                &&& o == Outcome::Done(true) ==> s.pos <= s2.pos
                &&& grows(s, s2)
            }),
    ;

    /// A run depends on the error handler's state only through whether it collects errors:
    /// from two handler states that agree on that, two runs that do not get stuck have the
    /// same outcome and leave the same state apart from the handler, and a run keeps whether
    /// the handler collects errors.
    proof fn lemma_match_handler_blind(&self, inp: Inp, rec: bool, s: State<V>, eh2: HandlerModel)
        requires
            self.wf(),
            s.valid(inp.spec_len()),
            eh2.is_real() == s.eh.is_real(),
        ensures
            ({
                let (o1, s1) = self.spec_match(inp, rec, s);
                let (o2, s2) = self.spec_match(inp, rec, s.with_eh(eh2));
                &&& !(o1 is Stuck) ==> s1.eh.is_real() == s.eh.is_real()
                &&& !(o1 is Stuck) && !(o2 is Stuck) ==> o1 == o2 && same_but_handler(s1, s2)
            }),
    ;

    /// Label reported to the error handler when a run of this matcher fails.
    fn maybe_label(&self) -> (l: Option<String>)
        ensures
            opt_label(l) == self.spec_label(),
    ;

    /// Run this matcher.
    fn match_with_runner<EH: ErrorHandler>(
        &self,
        ctx: &mut ParserContext<V>,
        runner: &mut NoMemoizeBacktrackingRunner<V>,
        eh: &mut EH,
        input: &mut InputStream<Inp>,
    ) -> (r: Result<bool, MatcherRunError>)
        requires
            self.wf(),
            old(input).pos <= old(input).input.spec_len(),
            memo_ok(old(ctx).memo_store@, old(input).input.spec_len()),
            old(input).input.spec_len() <= usize::MAX,
            !(self.spec_match(
                old(input).input,
                old(ctx).is_in_error_recovery,
                exec_state(old(ctx), old(runner).stack@, old(eh), old(input)),
            ).0 is Stuck),
        ensures
            final(input).input == old(input).input,
            final(ctx).is_in_error_recovery == old(ctx).is_in_error_recovery,
            ({
                let (o, s2) = self.spec_match(
                    old(input).input,
                    old(ctx).is_in_error_recovery,
                    exec_state(old(ctx), old(runner).stack@, old(eh), old(input)),
                );
                &&& result_matches(r, o)
                &&& exec_state(final(ctx), final(runner).stack@, final(eh), final(input)) == s2
            }),
    ;
}

/// Combinators available on every matcher.
pub trait MatcherCombinator: Sized {
    /// Enrich furthest-failure errors of `self` with `error_parser` (see
    /// [`error_contextualizer::ErrorContextualizer`]).
    fn add_error_info<P>(self, error_parser: P) -> (r: error_contextualizer::ErrorContextualizer<Self, P>)
        ensures
            r.happy == self,
            r.error_parser == error_parser,
    {
        error_contextualizer::ErrorContextualizer::new(self, error_parser)
    }

    /// Record the diagnostic of `factory` where `self` misses (see [`err_if::err_if_no_match`]).
    fn err_if_no_match<F>(self, factory: F) -> (r: err_if::ErrIfNoMatchMatcher<Self, F>)
        ensures
            r.inner == self,
            r.factory == factory,
    {
        err_if::err_if_no_match(self, factory)
    }

    /// Record a missing-syntax diagnostic where `self` misses (see
    /// [`err_if::try_insert_if_missing`]).
    fn try_insert_if_missing(self, message: String) -> (r: err_if::ErrIfNoMatchMatcher<
        Self,
        crate::error::MissingSyntax,
    >)
        ensures
            r.inner == self,
            r.factory.0@ == message@,
    {
        err_if::try_insert_if_missing(self, message)
    }

    /// Record the diagnostic of `factory` where `self` matches (see [`err_if::err_if_matched`]).
    fn err_if_matched<F>(self, factory: F) -> (r: err_if::ErrIfMatchedMatcher<Self, F>)
        ensures
            r.inner == self,
            r.factory == factory,
    {
        err_if::err_if_matched(self, factory)
    }

    /// Record an unwanted-syntax diagnostic where `self` matches (see [`err_if::unwanted`]).
    fn unwanted(self, message: String) -> (r: err_if::ErrIfMatchedMatcher<Self, crate::error::UnwantedSyntax>)
        ensures
            r.inner == self,
            r.factory.0@ == message@,
    {
        err_if::unwanted(self, message)
    }

    /// A parser that produces `output` where `self` matches (see [`to_parser::ToParser`]).
    fn to<O>(self, output: O) -> (r: to_parser::ToParser<Self, O>)
        ensures
            r.matcher == self,
            r.output == output,
    {
        to_parser::ToParser::new(self, output)
    }
}

impl<M> MatcherCombinator for M {}

/// A type that can be turned into a matcher.
pub trait ToMatcher {
    /// The matcher it becomes.
    type MatcherType;

    /// The matcher.
    fn to_matcher(&self) -> Self::MatcherType;
}

/// The bound values and diagnostics of `s2` extend those of `s`, and the position stays
/// within the input.
pub open spec fn grows<V>(s: State<V>, s2: State<V>) -> bool {
    &&& s.binds.len() <= s2.binds.len()
    &&& s2.binds.take(s.binds.len() as int) == s.binds
    &&& s.errors.len() <= s2.errors.len()
    &&& s2.errors.take(s.errors.len() as int) == s.errors
    &&& 0 <= s2.pos
}

/// A state with the same bound values and diagnostics grows from the first.
pub proof fn lemma_grows_same<V>(s: State<V>, s2: State<V>)
    requires
        s2.binds == s.binds,
        s2.errors == s.errors,
        0 <= s2.pos,
    ensures
        grows(s, s2),
{
    assert(s.binds.take(s.binds.len() as int) =~= s.binds);
    assert(s.errors.take(s.errors.len() as int) =~= s.errors);
}

/// `grows` is transitive.
pub proof fn lemma_grows_trans<V>(s1: State<V>, s2: State<V>, s3: State<V>)
    requires
        grows(s1, s2),
        grows(s2, s3),
    ensures
        grows(s1, s3),
{
    assert(s3.binds.take(s1.binds.len() as int) =~= s3.binds.take(s2.binds.len() as int).take(
        s1.binds.len() as int,
    ));
    assert(s3.errors.take(s1.errors.len() as int) =~= s3.errors.take(s2.errors.len() as int).take(
        s1.errors.len() as int,
    ));
}

/// Close the rule `idx` as a failure: with a label, a labelled failure; without, a plain end.
pub open spec fn spec_fail_ok(
    m: HandlerModel,
    label: Option<Seq<char>>,
    idx: MultiErrorHandlerIndex,
    match_start: usize,
) -> bool {
    match label {
        Some(l) => m.error_ok(l, idx, match_start),
        None => m.success_ok(idx),
    }
}

/// State of the error handler after closing the rule `idx` as a failure.
pub open spec fn spec_fail(
    m: HandlerModel,
    label: Option<Seq<char>>,
    idx: MultiErrorHandlerIndex,
    match_start: usize,
) -> HandlerModel {
    match label {
        Some(l) => m.error(l, idx, match_start),
        None => m.success(idx),
    }
}

/// One run of `m` with rule bookkeeping: the error handler sees the rule start, the
/// watermark reached and the rule's end; on a miss the position, the bound values and the
/// diagnostics are restored; on an abort the diagnostics are restored.
pub open spec fn spec_run<Inp: Input, V, M: Matcher<Inp, V>>(
    m: M,
    inp: Inp,
    rec: bool,
    s: State<V>,
) -> (Outcome<bool>, State<V>) {
    let (eh1, idx) = s.eh.start(s.pos as usize);
    let (o, s2) = m.spec_match(inp, rec, State { eh: eh1, ..s });
    let eh3 = s2.eh.watermark(s2.pos as usize);
    match o {
        Outcome::Stuck => (Outcome::Stuck, s2),
        Outcome::Failed(e) => {
            if !spec_fail_ok(eh3, m.spec_label(), idx, s2.match_start) {
                (Outcome::Stuck, s2)
            } else {
                (
                    Outcome::Failed(e),
                    State {
                        errors: s2.errors.take(s.errors.len() as int),
                        eh: spec_fail(eh3, m.spec_label(), idx, s2.match_start),
                        ..s2
                    },
                )
            }
        },
        Outcome::Done(false) => {
            if !spec_fail_ok(eh3, m.spec_label(), idx, s2.match_start) {
                (Outcome::Stuck, s2)
            } else {
                (
                    Outcome::Done(false),
                    State {
                        pos: s.pos,
                        binds: s2.binds.take(s.binds.len() as int),
                        errors: s2.errors.take(s.errors.len() as int),
                        eh: spec_fail(eh3, m.spec_label(), idx, s2.match_start),
                        ..s2
                    },
                )
            }
        },
        Outcome::Done(true) => {
            if !eh3.success_ok(idx) {
                (Outcome::Stuck, s2)
            } else {
                (Outcome::Done(true), State { eh: eh3.success(idx), ..s2 })
            }
        },
    }
}

/// Bounds of [`spec_run`], from those of the matcher.
pub proof fn lemma_run_bounds<Inp: Input, V, M: Matcher<Inp, V>>(
    m: M,
    inp: Inp,
    rec: bool,
    s: State<V>,
)
    requires
        m.wf(),
        s.valid(inp.spec_len()),
    ensures
        ({
            let (o, s2) = spec_run::<Inp, V, M>(m, inp, rec, s);
            &&& s2.valid(inp.spec_len())
            &&& o == Outcome::Done(true) ==> s.pos <= s2.pos
            &&& o == Outcome::Done(false) ==> s2.pos == s.pos
            &&& grows(s, s2)
        }),
{
    let (eh1, idx) = s.eh.start(s.pos as usize);
    let s1 = State { eh: eh1, ..s };
    m.lemma_match_bounds(inp, rec, s1);
    let (o, s2) = m.spec_match(inp, rec, s1);
    assert(s2.errors.take(s.errors.len() as int).take(s.errors.len() as int) =~= s2.errors.take(
        s.errors.len() as int,
    ));
    assert(s2.binds.take(s.binds.len() as int).take(s.binds.len() as int) =~= s2.binds.take(
        s.binds.len() as int,
    ));
}

/// A rule that misses leaves no trace in the position, the bound values or the diagnostics,
/// and a rule that aborts leaves no diagnostics behind.
pub proof fn lemma_run_miss_restores<Inp: Input, V, M: Matcher<Inp, V>>(
    m: M,
    inp: Inp,
    rec: bool,
    s: State<V>,
)
    requires
        m.wf(),
        s.valid(inp.spec_len()),
    ensures
        ({
            let (o, s2) = spec_run::<Inp, V, M>(m, inp, rec, s);
            &&& o == Outcome::Done(false) ==> s2.pos == s.pos && s2.binds == s.binds && s2.errors
                == s.errors
            &&& o is Failed ==> s2.errors == s.errors
        }),
{
    let (eh1, idx) = s.eh.start(s.pos as usize);
    let s1 = State { eh: eh1, ..s };
    m.lemma_match_bounds(inp, rec, s1);
}

/// A rule run depends on the error handler's state only through whether it collects errors
/// (see [`Matcher::lemma_match_handler_blind`]).
pub proof fn lemma_run_handler_blind<Inp: Input, V, M: Matcher<Inp, V>>(
    m: M,
    inp: Inp,
    rec: bool,
    s: State<V>,
    eh2: HandlerModel,
)
    requires
        m.wf(),
        s.valid(inp.spec_len()),
        eh2.is_real() == s.eh.is_real(),
    ensures
        ({
            let (o1, s1) = spec_run::<Inp, V, M>(m, inp, rec, s);
            let (o2, s2) = spec_run::<Inp, V, M>(m, inp, rec, s.with_eh(eh2));
            &&& !(o1 is Stuck) ==> s1.eh.is_real() == s.eh.is_real()
            &&& !(o1 is Stuck) && !(o2 is Stuck) ==> o1 == o2 && same_but_handler(s1, s2)
        }),
{
    let (eh1, idx) = s.eh.start(s.pos as usize);
    let (eh1b, idxb) = eh2.start(s.pos as usize);
    let t = State { eh: eh1, ..s };
    assert(State { eh: eh1b, ..s.with_eh(eh2) } == t.with_eh(eh1b));
    m.lemma_match_handler_blind(inp, rec, t, eh1b);
}

/// Run `m` with rule bookkeeping (see [`spec_run`]).
pub fn run_match<Inp: Input, V, M: Matcher<Inp, V>, EH: ErrorHandler>(
    m: &M,
    ctx: &mut ParserContext<V>,
    runner: &mut NoMemoizeBacktrackingRunner<V>,
    eh: &mut EH,
    input: &mut InputStream<Inp>,
) -> (r: Result<bool, MatcherRunError>)
    requires
        m.wf(),
        old(input).pos <= old(input).input.spec_len(),
        memo_ok(old(ctx).memo_store@, old(input).input.spec_len()),
        old(input).input.spec_len() <= usize::MAX,
        !(spec_run::<Inp, V, M>(
            *m,
            old(input).input,
            old(ctx).is_in_error_recovery,
            exec_state(old(ctx), old(runner).stack@, old(eh), old(input)),
        ).0 is Stuck),
    ensures
        final(input).input == old(input).input,
        final(ctx).is_in_error_recovery == old(ctx).is_in_error_recovery,
        ({
            let (o, s2) = spec_run::<Inp, V, M>(
                *m,
                old(input).input,
                old(ctx).is_in_error_recovery,
                exec_state(old(ctx), old(runner).stack@, old(eh), old(input)),
            );
            &&& result_matches(r, o)
            &&& exec_state(final(ctx), final(runner).stack@, final(eh), final(input)) == s2
        }),
{
    proof {
        let s0 = exec_state(ctx, runner.stack@, eh, input);
        let (eh1, idx) = s0.eh.start(s0.pos as usize);
        m.lemma_match_bounds(input.input, ctx.is_in_error_recovery, State { eh: eh1, ..s0 });
    }
    let old_pos = input.get_pos();
    let idx = eh.register_start(old_pos);
    let old_err_len = ctx.error_stack.len();
    let old_bind_len = runner.stack.len();
    let result = m.match_with_runner(ctx, runner, eh, input);
    eh.register_watermark(input.get_pos());
    match result {
        Err(err) => {
            register_failure(eh, m.maybe_label(), idx, ctx.match_start);
            let ghost before = ctx.error_stack@;
            ctx.error_stack.truncate(old_err_len);
            proof {
                assert(crate::context::error_views(ctx.error_stack@) =~= crate::context::error_views(
                    before,
                ).take(old_err_len as int));
            }
            Err(err)
        },
        Ok(false) => {
            runner.stack.truncate(old_bind_len);
            input.set_pos(old_pos);
            register_failure(eh, m.maybe_label(), idx, ctx.match_start);
            let ghost before = ctx.error_stack@;
            ctx.error_stack.truncate(old_err_len);
            proof {
                assert(crate::context::error_views(ctx.error_stack@) =~= crate::context::error_views(
                    before,
                ).take(old_err_len as int));
            }
            Ok(false)
        },
        Ok(true) => {
            eh.register_success(idx);
            Ok(true)
        },
    }
}

/// Close the rule `idx` as a failure (see [`spec_fail`]).
pub fn register_failure<EH: ErrorHandler>(
    eh: &mut EH,
    label: Option<String>,
    idx: MultiErrorHandlerIndex,
    match_start: usize,
)
    requires
        spec_fail_ok(old(eh).model(), opt_label(label), idx, match_start),
    ensures
        final(eh).model() == spec_fail(old(eh).model(), opt_label(label), idx, match_start),
{
    match label {
        Some(l) => eh.register_error(l, idx, match_start),
        None => eh.register_success(idx),
    }
}

} // verus!

verus! {

/// The empty matcher: always matches, consuming nothing.
impl<Inp: Input, V> Matcher<Inp, V> for () {
    open spec fn wf(&self) -> bool {
        true
    }

    open spec fn spec_label(&self) -> Option<Seq<char>> {
        None
    }

    open spec fn spec_match(&self, inp: Inp, rec: bool, s: State<V>) -> (Outcome<bool>, State<V>) {
        (Outcome::Done(true), s)
    }

    proof fn lemma_match_bounds(&self, inp: Inp, rec: bool, s: State<V>) {
        lemma_grows_same(s, s);
    }

    proof fn lemma_match_handler_blind(&self, inp: Inp, rec: bool, s: State<V>, eh2: HandlerModel) {
    }

    fn maybe_label(&self) -> (l: Option<String>) {
        None
    }

    fn match_with_runner<EH: ErrorHandler>(
        &self,
        ctx: &mut ParserContext<V>,
        runner: &mut NoMemoizeBacktrackingRunner<V>,
        eh: &mut EH,
        input: &mut InputStream<Inp>,
    ) -> (r: Result<bool, MatcherRunError>) {
        Ok(true)
    }
}

} // verus!
