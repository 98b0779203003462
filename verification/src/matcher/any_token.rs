//! Unconditional single-token consumption (if any input remains).
use vstd::prelude::*;
use crate::error_handler::HandlerModel;
use crate::context::{Outcome, ParserContext, State};
use crate::error::MatcherRunError;
use crate::error_handler::ErrorHandler;
use crate::input::{Input, InputStream};
use crate::matcher::{Matcher, NoMemoizeBacktrackingRunner};

verus! {

/// Matches exactly one token and advances; fails at end of input.
#[derive(Clone, Copy)]
pub struct AnyToken;

impl<Inp: Input, V> Matcher<Inp, V> for AnyToken {
    open spec fn wf(&self) -> bool {
        true
    }

    open spec fn spec_label(&self) -> Option<Seq<char>> {
        None
    }

    open spec fn spec_match(&self, inp: Inp, rec: bool, s: State<V>) -> (Outcome<bool>, State<V>) {
        match inp.spec_read(s.pos) {
            Some((_, next)) => (Outcome::Done(true), s.at(next)),
            None => (Outcome::Done(false), s),
        }
    }

    proof fn lemma_match_bounds(&self, inp: Inp, rec: bool, s: State<V>) {
        inp.lemma_read_bounds(s.pos, Seq::empty());
        crate::matcher::lemma_grows_same(s, self.spec_match(inp, rec, s).1);
    }

    proof fn lemma_match_handler_blind(&self, inp: Inp, rec: bool, s: State<V>, eh2: HandlerModel) {
    }

    fn maybe_label(&self) -> (l: Option<String>) {
        None
    }

    fn match_with_runner<EH: ErrorHandler>(
        &self,
        ctx: &mut ParserContext<V>,
        runner: &mut NoMemoizeBacktrackingRunner<V>,
        eh: &mut EH,
        input: &mut InputStream<Inp>,
    ) -> (r: Result<bool, MatcherRunError>) {
        proof {
            input.input.lemma_read_bounds(input.pos as int, Seq::empty());
        }
        Ok(input.next().is_some())
    }
}

/// Any token matches exactly where a token can be read, and moves past it; at the end of the
/// input it misses without moving.
pub proof fn lemma_any_token_reads_one<Inp: Input, V>(a: AnyToken, inp: Inp, rec: bool, s: State<V>)
    ensures
        match inp.spec_read(s.pos) {
            Some((_, next)) => <AnyToken as Matcher<Inp, V>>::spec_match(&a, inp, rec, s) == (
                Outcome::<bool>::Done(true),
                s.at(next),
            ),
            None => <AnyToken as Matcher<Inp, V>>::spec_match(&a, inp, rec, s) == (Outcome::<bool>::Done(false), s),
        },
{
}

} // verus!
