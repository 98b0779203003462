//! A parser used as a matcher, its output dropped.
use vstd::prelude::*;
use crate::error_handler::HandlerModel;
use crate::context::{Outcome, ParserContext, State};
use crate::error::MatcherRunError;
use crate::error_handler::ErrorHandler;
use crate::input::{Input, InputStream};
use crate::matcher::{Matcher, NoMemoizeBacktrackingRunner};
use crate::parser::Parser;

verus! {

/// Matches where `parser` produces a value, which is dropped.
pub struct IgnoreResult<P> {
    /// The parser.
    pub parser: P,
}

impl<P> IgnoreResult<P> {
    /// Match where `parser` produces a value.
    pub fn new(parser: P) -> (r: Self)
        ensures
            r.parser == parser,
    {
        IgnoreResult { parser }
    }
}

impl<Inp: Input, V, P: Parser<Inp, V>> Matcher<Inp, V> for IgnoreResult<P> {
    open spec fn wf(&self) -> bool {
        self.parser.wf()
    }

    open spec fn spec_label(&self) -> Option<Seq<char>> {
        None
    }

    open spec fn spec_match(&self, inp: Inp, rec: bool, s: State<V>) -> (Outcome<bool>, State<V>) {
        let (o, s2) = self.parser.spec_parse(inp, rec, s.with_binds(Seq::empty()));
        (
            match o {
                Outcome::Done(x) => Outcome::Done(x is Some),
                Outcome::Failed(e) => Outcome::Failed(e),
                Outcome::Stuck => Outcome::Stuck,
            },
            s2.with_binds(s.binds),
        )
    }

    proof fn lemma_match_bounds(&self, inp: Inp, rec: bool, s: State<V>) {
        self.parser.lemma_parse_bounds(inp, rec, s.with_binds(Seq::empty()));
        assert(s.binds.take(s.binds.len() as int) =~= s.binds);
    }

    proof fn lemma_match_handler_blind(&self, inp: Inp, rec: bool, s: State<V>, eh2: HandlerModel) {
        let t = s.with_binds(Seq::empty());
        assert(s.with_eh(eh2).with_binds(Seq::empty()) == t.with_eh(eh2));
        self.parser.lemma_parse_handler_blind(inp, rec, t, eh2);
    }

    fn maybe_label(&self) -> (l: Option<String>) {
        None
    }

    fn match_with_runner<EH: ErrorHandler>(
        &self,
        ctx: &mut ParserContext<V>,
        runner: &mut NoMemoizeBacktrackingRunner<V>,
        eh: &mut EH,
        input: &mut InputStream<Inp>,
    ) -> (r: Result<bool, MatcherRunError>) {
        match self.parser.parse(ctx, eh, input) {
            Ok(x) => Ok(x.is_some()),
            Err(e) => Err(e),
        }
    }
}

} // verus!
