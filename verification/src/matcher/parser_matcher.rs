//! A parser used as a matcher that checks its output.
use vstd::prelude::*;
use crate::error_handler::HandlerModel;
use crate::context::{Outcome, ParserContext, State};
use crate::error::MatcherRunError;
use crate::error_handler::ErrorHandler;
use crate::input::{Input, InputStream};
use crate::matcher::{Matcher, NoMemoizeBacktrackingRunner};
use crate::parser::Parser;
use vstd::std_specs::cmp::PartialEqSpec;

verus! {

broadcast use vstd::seq::group_seq_axioms;

/// Matches where `parser` produces a value equal to `expected_output`.
pub struct ParserMatcher<P, O> {
    /// The parser.
    pub parser: P,
    /// The output that counts as a match.
    pub expected_output: O,
}

impl<P, O> ParserMatcher<P, O> {
    /// Match where `parser` produces `expected_output`.
    pub fn new(parser: P, expected_output: O) -> (r: Self)
        ensures
            r.parser == parser,
            r.expected_output == expected_output,
    {
        ParserMatcher { parser, expected_output }
    }
}

impl<Inp: Input, V, P: Parser<Inp, V>> Matcher<Inp, V> for ParserMatcher<P, P::Output> where
    P::Output: PartialEq,
 {
    open spec fn wf(&self) -> bool {
        self.parser.wf() && P::Output::obeys_eq_spec()
    }

    open spec fn spec_label(&self) -> Option<Seq<char>> {
        None
    }

    open spec fn spec_match(&self, inp: Inp, rec: bool, s: State<V>) -> (Outcome<bool>, State<V>) {
        let (o, s2) = self.parser.spec_parse(inp, rec, s.with_binds(Seq::empty()));
        (
            match o {
                Outcome::Done(Some(x)) => Outcome::Done(x.eq_spec(&self.expected_output)),
                Outcome::Done(None) => Outcome::Done(false),
                Outcome::Failed(e) => Outcome::Failed(e),
                Outcome::Stuck => Outcome::Stuck,
            },
            s2.with_binds(s.binds),
        )
    }

    proof fn lemma_match_bounds(&self, inp: Inp, rec: bool, s: State<V>) {
        self.parser.lemma_parse_bounds(inp, rec, s.with_binds(Seq::empty()));
        assert(s.binds.take(s.binds.len() as int) =~= s.binds);
    }

    proof fn lemma_match_handler_blind(&self, inp: Inp, rec: bool, s: State<V>, eh2: HandlerModel) {
        let t = s.with_binds(Seq::empty());
        assert(s.with_eh(eh2).with_binds(Seq::empty()) == t.with_eh(eh2));
        self.parser.lemma_parse_handler_blind(inp, rec, t, eh2);
    }

    fn maybe_label(&self) -> (l: Option<String>) {
        None
    }

    fn match_with_runner<EH: ErrorHandler>(
        &self,
        ctx: &mut ParserContext<V>,
        runner: &mut NoMemoizeBacktrackingRunner<V>,
        eh: &mut EH,
        input: &mut InputStream<Inp>,
    ) -> (r: Result<bool, MatcherRunError>) {
        match self.parser.parse(ctx, eh, input) {
            Ok(Some(x)) => Ok(x == self.expected_output),
            Ok(None) => Ok(false),
            Err(e) => Err(e),
        }
    }
}

} // verus!
