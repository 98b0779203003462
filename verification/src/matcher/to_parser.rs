//! Matchers used as parsers that produce a fixed value.
use vstd::prelude::*;
use crate::matcher::lemma_run_handler_blind;
use crate::error_handler::HandlerModel;
use crate::context::{Outcome, ParserContext, State};
use crate::error::MatcherRunError;
use crate::error_handler::ErrorHandler;
use crate::input::{Input, InputStream};
use crate::matcher::{Matcher, NoMemoizeBacktrackingRunner, grows, lemma_run_bounds, run_match, spec_run};
use crate::parser::{Parser, clone_exact};

verus! {

/// A parser whose behaviour is that of a matcher: it produces `output` where the matcher
/// matches.
pub struct ToParser<M, O> {
    /// The matcher.
    pub matcher: M,
    /// The value produced on a match.
    pub output: O,
}

impl<M, O> ToParser<M, O> {
    /// Produce `output` where `matcher` matches.
    pub fn new(matcher: M, output: O) -> (r: Self)
        ensures
            r.matcher == matcher,
            r.output == output,
    {
        ToParser { matcher, output }
    }
}

/// The outcome of a matcher run as a parser: `output` on a match, nothing on a miss; the
/// values the matcher bound are dropped.
pub open spec fn spec_matcher_as_parser<Inp: Input, V, M: Matcher<Inp, V>, O>(
    m: M,
    output: O,
    inp: Inp,
    rec: bool,
    s: State<V>,
) -> (Outcome<Option<O>>, State<V>) {
    let (o, s2) = spec_run::<Inp, V, M>(m, inp, rec, s.with_binds(Seq::empty()));
    (
        match o {
            Outcome::Done(b) => Outcome::Done(if b { Some(output) } else { None }),
            Outcome::Failed(e) => Outcome::Failed(e),
            Outcome::Stuck => Outcome::Stuck,
        },
        s2.with_binds(s.binds),
    )
}

/// Bounds of [`spec_matcher_as_parser`].
pub proof fn lemma_matcher_as_parser_bounds<Inp: Input, V, M: Matcher<Inp, V>, O>(
    m: M,
    output: O,
    inp: Inp,
    rec: bool,
    s: State<V>,
)
    requires
        m.wf(),
        s.valid(inp.spec_len()),
    ensures
        ({
            let (o, s2) = spec_matcher_as_parser::<Inp, V, M, O>(m, output, inp, rec, s);
            &&& s2.valid(inp.spec_len())
            &&& o matches Outcome::Done(Some(_)) ==> s.pos <= s2.pos
            &&& o == Outcome::<Option<O>>::Done(None) ==> s2.pos == s.pos
            &&& s2.binds == s.binds
            &&& grows(s, s2)
        }),
{
    lemma_run_bounds::<Inp, V, M>(m, inp, rec, s.with_binds(Seq::empty()));
    assert(s.binds.take(s.binds.len() as int) =~= s.binds);
}

impl<Inp: Input, V, M: Matcher<Inp, V>, O: Clone> Parser<Inp, V> for ToParser<M, O> {
    type Output = O;

    open spec fn wf(&self) -> bool {
        self.matcher.wf() && clone_exact(self.output)
    }

    open spec fn spec_label(&self) -> Option<Seq<char>> {
        None
    }

    open spec fn spec_parse(&self, inp: Inp, rec: bool, s: State<V>) -> (Outcome<Option<O>>, State<V>) {
        spec_matcher_as_parser::<Inp, V, M, O>(self.matcher, self.output, inp, rec, s)
    }

    proof fn lemma_parse_bounds(&self, inp: Inp, rec: bool, s: State<V>) {
        lemma_matcher_as_parser_bounds::<Inp, V, M, O>(self.matcher, self.output, inp, rec, s);
        lemma_run_bounds::<Inp, V, M>(self.matcher, inp, rec, s.with_binds(Seq::empty()));
    }

    proof fn lemma_parse_handler_blind(&self, inp: Inp, rec: bool, s: State<V>, eh2: HandlerModel) {
        let t = s.with_binds(Seq::empty());
        assert(s.with_eh(eh2).with_binds(Seq::empty()) == t.with_eh(eh2));
        lemma_run_handler_blind::<Inp, V, M>(self.matcher, inp, rec, t, eh2);
    }

    fn maybe_label(&self) -> (l: Option<String>) {
        None
    }

    fn parse<EH: ErrorHandler>(
        &self,
        ctx: &mut ParserContext<V>,
        eh: &mut EH,
        input: &mut InputStream<Inp>,
    ) -> (r: Result<Option<O>, MatcherRunError>) {
        let mut runner = NoMemoizeBacktrackingRunner::new();
        proof {
            assert(runner.stack@ =~= Seq::<crate::context::Bound<V>>::empty());
        }
        match run_match(&self.matcher, ctx, &mut runner, eh, input) {
            Ok(true) => Ok(Some(self.output.clone())),
            Ok(false) => Ok(None),
            Err(e) => Err(e),
        }
    }
}

/// A matcher turned into a parser produces its value exactly where the matcher matches,
/// nothing where it misses, and the matcher's abort where it aborts; the matcher runs with
/// no values bound, and the caller's bound values are left as they were.
pub proof fn lemma_to_parser_outcome<Inp: Input, V, M: Matcher<Inp, V>, O: Clone>(
    p: ToParser<M, O>,
    inp: Inp,
    rec: bool,
    s: State<V>,
)
    ensures
        ({
            let (o, s1) = spec_run::<Inp, V, M>(p.matcher, inp, rec, s.with_binds(Seq::empty()));
            let (r, s2) = <ToParser<M, O> as Parser<Inp, V>>::spec_parse(&p, inp, rec, s);
            &&& s2 == s1.with_binds(s.binds)
            &&& o == Outcome::<bool>::Done(true) ==> r == Outcome::Done(Some(p.output))
            &&& o == Outcome::<bool>::Done(false) ==> r == Outcome::<Option<O>>::Done(None)
            &&& o matches Outcome::Failed(e) ==> r == Outcome::<Option<O>>::Failed(e)
            &&& o is Stuck ==> r is Stuck
        }),
{
}

} // verus!
