//! Matchers that record an inline diagnostic when an inner matcher matches or misses.
//!
//! The diagnostic is pushed onto the context's error stack; the rule bookkeeping of
//! [`crate::matcher::run_match`] drops it again if an enclosing branch misses.
use vstd::prelude::*;
use crate::matcher::lemma_run_handler_blind;
use crate::error_handler::HandlerModel;
use crate::context::{Outcome, ParserContext, State, error_views, exec_state};
use crate::error::{BuildInlineError, MatchDiagCtx, MatcherRunError, MissingSyntax, RunErrorView, UnwantedSyntax};
use crate::error_handler::ErrorHandler;
use crate::input::{Input, InputStream};
use crate::matcher::{Matcher, NoMemoizeBacktrackingRunner, lemma_run_bounds, run_match, spec_run};

verus! {

broadcast use vstd::seq::group_seq_axioms;

/// Where `inner` misses: in recovery mode, record the diagnostic of `factory` at the
/// insertion point and match anyway; in a first pass, ask for a rerun in recovery mode.
pub struct ErrIfNoMatchMatcher<I, F> {
    /// Wrapped matcher.
    pub inner: I,
    /// Diagnostic factory.
    pub factory: F,
}

impl<I, F> ErrIfNoMatchMatcher<I, F> {
    /// Wrap `inner` and `factory`.
    pub fn new(inner: I, factory: F) -> (r: Self)
        ensures
            r.inner == inner,
            r.factory == factory,
    {
        ErrIfNoMatchMatcher { inner, factory }
    }
}

/// Where `inner` matches, record the diagnostic of `factory` for the matched span.
pub struct ErrIfMatchedMatcher<I, F> {
    /// Wrapped matcher.
    pub inner: I,
    /// Diagnostic factory.
    pub factory: F,
}

impl<I, F> ErrIfMatchedMatcher<I, F> {
    /// Wrap `inner` and `factory`.
    pub fn new(inner: I, factory: F) -> (r: Self)
        ensures
            r.inner == inner,
            r.factory == factory,
    {
        ErrIfMatchedMatcher { inner, factory }
    }
}

/// See [`ErrIfNoMatchMatcher`].
pub fn err_if_no_match<I, F>(inner: I, factory: F) -> (r: ErrIfNoMatchMatcher<I, F>)
    ensures
        r.inner == inner,
        r.factory == factory,
{
    ErrIfNoMatchMatcher::new(inner, factory)
}

/// Record a missing-syntax diagnostic with `message` where `inner` misses.
pub fn try_insert_if_missing<I>(inner: I, message: String) -> (r: ErrIfNoMatchMatcher<I, MissingSyntax>)
    ensures
        r.inner == inner,
        r.factory.0@ == message@,
{
    ErrIfNoMatchMatcher::new(inner, MissingSyntax(message))
}

/// See [`ErrIfMatchedMatcher`].
pub fn err_if_matched<I, F>(inner: I, factory: F) -> (r: ErrIfMatchedMatcher<I, F>)
    ensures
        r.inner == inner,
        r.factory == factory,
{
    ErrIfMatchedMatcher::new(inner, factory)
}

/// Record an unwanted-syntax diagnostic with `message` where `inner` matches.
pub fn unwanted<I>(inner: I, message: String) -> (r: ErrIfMatchedMatcher<I, UnwantedSyntax>)
    ensures
        r.inner == inner,
        r.factory.0@ == message@,
{
    ErrIfMatchedMatcher::new(inner, UnwantedSyntax(message))
}

impl<Inp: Input, V, I: Matcher<Inp, V>, F: BuildInlineError> Matcher<Inp, V> for ErrIfNoMatchMatcher<
    I,
    F,
> {
    open spec fn wf(&self) -> bool {
        self.inner.wf()
    }

    open spec fn spec_label(&self) -> Option<Seq<char>> {
        None
    }

    open spec fn spec_match(&self, inp: Inp, rec: bool, s: State<V>) -> (Outcome<bool>, State<V>) {
        let (o, s2) = spec_run::<Inp, V, I>(self.inner, inp, rec, s);
        match o {
            Outcome::Done(false) => {
                if rec {
                    let d = self.factory.spec_build(MatchDiagCtx { start: s.pos as usize, end: s.pos as usize });
                    (Outcome::Done(true), State { errors: s2.errors.push(d), ..s2 })
                } else {
                    (Outcome::Failed(RunErrorView::RetryRerunNeeded), s2)
                }
            },
            _ => (o, s2),
        }
    }

    proof fn lemma_match_bounds(&self, inp: Inp, rec: bool, s: State<V>) {
        lemma_run_bounds::<Inp, V, I>(self.inner, inp, rec, s);
        let (o, s2) = spec_run::<Inp, V, I>(self.inner, inp, rec, s);
        let d = self.factory.spec_build(MatchDiagCtx { start: s.pos as usize, end: s.pos as usize });
        assert(s2.errors.push(d).take(s.errors.len() as int) =~= s2.errors.take(s.errors.len() as int));
    }

    proof fn lemma_match_handler_blind(&self, inp: Inp, rec: bool, s: State<V>, eh2: HandlerModel) {
        lemma_run_handler_blind::<Inp, V, I>(self.inner, inp, rec, s, eh2);
    }

    fn maybe_label(&self) -> (l: Option<String>) {
        None
    }

    fn match_with_runner<EH: ErrorHandler>(
        &self,
        ctx: &mut ParserContext<V>,
        runner: &mut NoMemoizeBacktrackingRunner<V>,
        eh: &mut EH,
        input: &mut InputStream<Inp>,
    ) -> (r: Result<bool, MatcherRunError>) {
        let start_pos = input.get_pos();
        match run_match(&self.inner, ctx, runner, eh, input) {
            Ok(false) => {
                if ctx.is_in_error_recovery {
                    let d = self.factory.build_inline_error(MatchDiagCtx::insertion_point(start_pos));
                    let ghost before = ctx.error_stack@;
                    ctx.push_stack_error(d);
                    proof {
                        assert(error_views(ctx.error_stack@) =~= error_views(before).push(d@));
                    }
                    Ok(true)
                } else {
                    Err(MatcherRunError::RetryRerunNeeded)
                }
            },
            other => other,
        }
    }
}

impl<Inp: Input, V, I: Matcher<Inp, V>, F: BuildInlineError> Matcher<Inp, V> for ErrIfMatchedMatcher<
    I,
    F,
> {
    open spec fn wf(&self) -> bool {
        self.inner.wf()
    }

    open spec fn spec_label(&self) -> Option<Seq<char>> {
        None
    }

    open spec fn spec_match(&self, inp: Inp, rec: bool, s: State<V>) -> (Outcome<bool>, State<V>) {
        let (o, s2) = spec_run::<Inp, V, I>(self.inner, inp, rec, s);
        match o {
            Outcome::Done(true) => {
                let d = self.factory.spec_build(MatchDiagCtx { start: s.pos as usize, end: s2.pos as usize });
                (Outcome::Done(true), State { errors: s2.errors.push(d), ..s2 })
            },
            _ => (o, s2),
        }
    }

    proof fn lemma_match_bounds(&self, inp: Inp, rec: bool, s: State<V>) {
        lemma_run_bounds::<Inp, V, I>(self.inner, inp, rec, s);
        let (o, s2) = spec_run::<Inp, V, I>(self.inner, inp, rec, s);
        let d = self.factory.spec_build(MatchDiagCtx { start: s.pos as usize, end: s2.pos as usize });
        assert(s2.errors.push(d).take(s.errors.len() as int) =~= s2.errors.take(s.errors.len() as int));
    }

    proof fn lemma_match_handler_blind(&self, inp: Inp, rec: bool, s: State<V>, eh2: HandlerModel) {
        lemma_run_handler_blind::<Inp, V, I>(self.inner, inp, rec, s, eh2);
    }

    fn maybe_label(&self) -> (l: Option<String>) {
        None
    }

    fn match_with_runner<EH: ErrorHandler>(
        &self,
        ctx: &mut ParserContext<V>,
        runner: &mut NoMemoizeBacktrackingRunner<V>,
        eh: &mut EH,
        input: &mut InputStream<Inp>,
    ) -> (r: Result<bool, MatcherRunError>) {
        let start_pos = input.get_pos();
        match run_match(&self.inner, ctx, runner, eh, input) {
            Ok(true) => {
                let end_pos = input.get_pos();
                let d = self.factory.build_inline_error(MatchDiagCtx { start: start_pos, end: end_pos });
                let ghost before = ctx.error_stack@;
                ctx.push_stack_error(d);
                proof {
                    assert(error_views(ctx.error_stack@) =~= error_views(before).push(d@));
                }
                Ok(true)
            },
            other => other,
        }
    }
}

/// Where the inner matcher misses, a first pass asks for a rerun in recovery mode, and a
/// recovery pass records the diagnostic and goes on: in recovery mode the wrapper never
/// misses.
pub proof fn lemma_err_if_no_match_modes<Inp: Input, V, I: Matcher<Inp, V>, F: BuildInlineError>(
    m: ErrIfNoMatchMatcher<I, F>,
    inp: Inp,
    rec: bool,
    s: State<V>,
)
    ensures
        rec ==> m.spec_match(inp, rec, s).0 != Outcome::<bool>::Done(false),
        !rec && spec_run::<Inp, V, I>(m.inner, inp, rec, s).0 == Outcome::<bool>::Done(false)
            ==> m.spec_match(inp, rec, s).0 == Outcome::<bool>::Failed(RunErrorView::RetryRerunNeeded),
{
}

/// Where the wrapped matcher misses, a first pass aborts asking for a recovery pass, and a
/// recovery pass matches without consuming input after recording the factory's diagnostic
/// for the empty span at the start position; any other outcome is the wrapped matcher's.
pub proof fn lemma_err_if_no_match_outcome<Inp: Input, V, I: Matcher<Inp, V>, F: BuildInlineError>(
    m: ErrIfNoMatchMatcher<I, F>,
    inp: Inp,
    rec: bool,
    s: State<V>,
)
    ensures
        ({
            let (o, s1) = spec_run::<Inp, V, I>(m.inner, inp, rec, s);
            let r = m.spec_match(inp, rec, s);
            let d = m.factory.spec_build(MatchDiagCtx { start: s.pos as usize, end: s.pos as usize });
            &&& o == Outcome::<bool>::Done(false) && rec ==> r == (
                Outcome::<bool>::Done(true),
                State { errors: s1.errors.push(d), ..s1 },
            )
            &&& o == Outcome::<bool>::Done(false) && !rec ==> r == (
                Outcome::<bool>::Failed(RunErrorView::RetryRerunNeeded),
                s1,
            )
            &&& o != Outcome::<bool>::Done(false) ==> r == (o, s1)
        }),
{
}

/// Where the wrapped matcher matches, the matcher matches and records the factory's
/// diagnostic for the matched span; any other outcome is the wrapped matcher's.
pub proof fn lemma_err_if_matched_outcome<Inp: Input, V, I: Matcher<Inp, V>, F: BuildInlineError>(
    m: ErrIfMatchedMatcher<I, F>,
    inp: Inp,
    rec: bool,
    s: State<V>,
)
    ensures
        ({
            let (o, s1) = spec_run::<Inp, V, I>(m.inner, inp, rec, s);
            let r = m.spec_match(inp, rec, s);
            let d = m.factory.spec_build(MatchDiagCtx { start: s.pos as usize, end: s1.pos as usize });
            &&& o == Outcome::<bool>::Done(true) ==> r == (
                Outcome::<bool>::Done(true),
                State { errors: s1.errors.push(d), ..s1 },
            )
            &&& o != Outcome::<bool>::Done(true) ==> r == (o, s1)
        }),
{
}

} // verus!
