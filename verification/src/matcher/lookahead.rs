//! Lookaheads: run a matcher and put the position back.
use vstd::prelude::*;
use crate::matcher::lemma_run_handler_blind;
use crate::context::{Outcome, ParserContext, State, exec_state};
use crate::error::MatcherRunError;
use crate::error_handler::{EmptyErrorHandler, ErrorHandler, HandlerModel};
use crate::input::{Input, InputStream};
use crate::matcher::{Matcher, NoMemoizeBacktrackingRunner, lemma_run_bounds, run_match, spec_run};
use crate::matcher::any_token::AnyToken;
use crate::matcher::one_of::{OneOf, one_of};

verus! {

/// Matches (consuming nothing) exactly where `checker` does not match. The checker runs
/// with an error handler that records nothing, so it never shows up in error reports.
pub struct NegativeLookahead<C> {
    /// The matcher that must not match.
    pub checker: C,
}

impl<C> NegativeLookahead<C> {
    /// Negate `checker`.
    pub fn new(checker: C) -> (r: Self)
        ensures
            r.checker == checker,
    {
        NegativeLookahead { checker }
    }
}

/// See [`NegativeLookahead`].
pub fn negative_lookahead<C>(checker: C) -> (r: NegativeLookahead<C>)
    ensures
        r.checker == checker,
{
    NegativeLookahead::new(checker)
}

impl<Inp: Input, V, C: Matcher<Inp, V>> Matcher<Inp, V> for NegativeLookahead<C> {
    open spec fn wf(&self) -> bool {
        self.checker.wf()
    }

    open spec fn spec_label(&self) -> Option<Seq<char>> {
        None
    }

    open spec fn spec_match(&self, inp: Inp, rec: bool, s: State<V>) -> (Outcome<bool>, State<V>) {
        let (o, s2) = spec_run::<Inp, V, C>(self.checker, inp, rec, s.with_eh(HandlerModel::Empty));
        match o {
            Outcome::Done(b) => (Outcome::Done(!b), State { pos: s.pos, eh: s.eh, ..s2 }),
            Outcome::Failed(e) => (Outcome::Failed(e), State { eh: s.eh, ..s2 }),
            Outcome::Stuck => (Outcome::Stuck, s2),
        }
    }

    proof fn lemma_match_bounds(&self, inp: Inp, rec: bool, s: State<V>) {
        lemma_run_bounds::<Inp, V, C>(self.checker, inp, rec, s.with_eh(HandlerModel::Empty));
    }

    proof fn lemma_match_handler_blind(&self, inp: Inp, rec: bool, s: State<V>, eh2: HandlerModel) {
    }

    fn maybe_label(&self) -> (l: Option<String>) {
        None
    }

    fn match_with_runner<EH: ErrorHandler>(
        &self,
        ctx: &mut ParserContext<V>,
        runner: &mut NoMemoizeBacktrackingRunner<V>,
        eh: &mut EH,
        input: &mut InputStream<Inp>,
    ) -> (r: Result<bool, MatcherRunError>) {
        let original_pos = input.get_pos();
        let mut inner = EmptyErrorHandler::new(0);
        let can_match = match run_match(&self.checker, ctx, runner, &mut inner, input) {
            Ok(b) => b,
            Err(e) => return Err(e),
        };
        input.set_pos(original_pos);
        Ok(!can_match)
    }
}

/// Matches (consuming nothing) exactly where `checker` matches.
pub struct PositiveLookahead<C> {
    /// The matcher that must match.
    pub checker: C,
}

impl<C> PositiveLookahead<C> {
    /// Look ahead for `checker`.
    pub fn new(checker: C) -> (r: Self)
        ensures
            r.checker == checker,
    {
        PositiveLookahead { checker }
    }
}

/// See [`PositiveLookahead`].
pub fn positive_lookahead<C>(checker: C) -> (r: PositiveLookahead<C>)
    ensures
        r.checker == checker,
{
    PositiveLookahead::new(checker)
}

impl<Inp: Input, V, C: Matcher<Inp, V>> Matcher<Inp, V> for PositiveLookahead<C> {
    open spec fn wf(&self) -> bool {
        self.checker.wf()
    }

    open spec fn spec_label(&self) -> Option<Seq<char>> {
        None
    }

    open spec fn spec_match(&self, inp: Inp, rec: bool, s: State<V>) -> (Outcome<bool>, State<V>) {
        let (o, s2) = spec_run::<Inp, V, C>(self.checker, inp, rec, s);
        match o {
            Outcome::Done(b) => (Outcome::Done(b), s2.at(s.pos)),
            _ => (o, s2),
        }
    }

    proof fn lemma_match_bounds(&self, inp: Inp, rec: bool, s: State<V>) {
        lemma_run_bounds::<Inp, V, C>(self.checker, inp, rec, s);
    }

    proof fn lemma_match_handler_blind(&self, inp: Inp, rec: bool, s: State<V>, eh2: HandlerModel) {
        lemma_run_handler_blind::<Inp, V, C>(self.checker, inp, rec, s, eh2);
    }

    fn maybe_label(&self) -> (l: Option<String>) {
        None
    }

    fn match_with_runner<EH: ErrorHandler>(
        &self,
        ctx: &mut ParserContext<V>,
        runner: &mut NoMemoizeBacktrackingRunner<V>,
        eh: &mut EH,
        input: &mut InputStream<Inp>,
    ) -> (r: Result<bool, MatcherRunError>) {
        let original_pos = input.get_pos();
        let result = match run_match(&self.checker, ctx, runner, eh, input) {
            Ok(b) => b,
            Err(e) => return Err(e),
        };
        input.set_pos(original_pos);
        Ok(result)
    }
}

/// Lookaheads consume nothing: where they match or miss, the position is where it was;
/// a negative lookahead leaves the error handler as it was.
pub proof fn lemma_lookahead_consumes_nothing<Inp: Input, V, C: Matcher<Inp, V>>(
    c: C,
    inp: Inp,
    rec: bool,
    s: State<V>,
)
    ensures
        ({
            let (o, s2) = (NegativeLookahead { checker: c }).spec_match(inp, rec, s);
            &&& o is Done ==> s2.pos == s.pos
            &&& !(o is Stuck) ==> s2.eh == s.eh
        }),
        ({
            let (o, s2) = (PositiveLookahead { checker: c }).spec_match(inp, rec, s);
            o is Done ==> s2.pos == s.pos
        }),
{
}

/// Any one token that none of the alternatives `options` matches at its position.
pub fn none_of<T>(options: T) -> (r: (NegativeLookahead<OneOf<T>>, AnyToken))
    ensures
        r.0.checker.options == options,
{
    (negative_lookahead(one_of(options)), AnyToken)
}

/// A negative lookahead matches exactly where its checker, run with a handler that records
/// nothing, misses, and misses where the checker matches; a positive lookahead matches
/// exactly where its checker matches. Both abort where the checker aborts.
pub proof fn lemma_lookahead_outcomes<Inp: Input, V, C: Matcher<Inp, V>>(c: C, inp: Inp, rec: bool, s: State<V>)
    ensures
        ({
            let (on, _) = spec_run::<Inp, V, C>(c, inp, rec, s.with_eh(HandlerModel::Empty));
            let (op, _) = spec_run::<Inp, V, C>(c, inp, rec, s);
            let rn = (NegativeLookahead { checker: c }).spec_match(inp, rec, s).0;
            let rp = (PositiveLookahead { checker: c }).spec_match(inp, rec, s).0;
            &&& on matches Outcome::Done(b) ==> rn == Outcome::<bool>::Done(!b)
            &&& on is Failed ==> rn == on
            &&& op is Done ==> rp == op
            &&& op is Failed ==> rp == op
        }),
{
}

} // verus!
