//! `matcher?`: tries the inner matcher once and matches either way.
use vstd::prelude::*;
use crate::matcher::lemma_run_handler_blind;
use crate::error_handler::HandlerModel;
use crate::context::{Outcome, ParserContext, State, exec_state};
use crate::error::MatcherRunError;
use crate::error_handler::ErrorHandler;
use crate::input::{Input, InputStream};
use crate::matcher::{Matcher, NoMemoizeBacktrackingRunner, lemma_run_bounds, run_match, spec_run};

verus! {

/// `matcher?` at the matcher level.
pub struct Optional<M> {
    /// The optional matcher.
    pub matcher: M,
}

/// See [`Optional`].
pub fn optional<M>(matcher: M) -> (r: Optional<M>)
    ensures
        r.matcher == matcher,
{
    Optional { matcher }
}

impl<Inp: Input, V, M: Matcher<Inp, V>> Matcher<Inp, V> for Optional<M> {
    open spec fn wf(&self) -> bool {
        self.matcher.wf()
    }

    open spec fn spec_label(&self) -> Option<Seq<char>> {
        None
    }

    open spec fn spec_match(&self, inp: Inp, rec: bool, s: State<V>) -> (Outcome<bool>, State<V>) {
        let (o, s2) = spec_run::<Inp, V, M>(self.matcher, inp, rec, s);
        match o {
            Outcome::Done(_) => (Outcome::Done(true), s2),
            _ => (o, s2),
        }
    }

    proof fn lemma_match_bounds(&self, inp: Inp, rec: bool, s: State<V>) {
        lemma_run_bounds::<Inp, V, M>(self.matcher, inp, rec, s);
    }

    proof fn lemma_match_handler_blind(&self, inp: Inp, rec: bool, s: State<V>, eh2: HandlerModel) {
        lemma_run_handler_blind::<Inp, V, M>(self.matcher, inp, rec, s, eh2);
    }

    fn maybe_label(&self) -> (l: Option<String>) {
        None
    }

    fn match_with_runner<EH: ErrorHandler>(
        &self,
        ctx: &mut ParserContext<V>,
        runner: &mut NoMemoizeBacktrackingRunner<V>,
        eh: &mut EH,
        input: &mut InputStream<Inp>,
    ) -> (r: Result<bool, MatcherRunError>) {
        match run_match(&self.matcher, ctx, runner, eh, input) {
            Ok(_) => Ok(true),
            Err(e) => Err(e),
        }
    }
}

/// An optional matcher never misses.
pub proof fn lemma_optional_never_misses<Inp: Input, V, M: Matcher<Inp, V>>(
    m: M,
    inp: Inp,
    rec: bool,
    s: State<V>,
)
    ensures
        (Optional { matcher: m }).spec_match(inp, rec, s).0 != Outcome::<bool>::Done(false),
{
}

/// `matcher?` is `matcher`'s run, with a miss turned into a match at the state the run
/// restored; an abort is the run's abort.
pub proof fn lemma_optional_steps<Inp: Input, V, M: Matcher<Inp, V>>(m: Optional<M>, inp: Inp, rec: bool, s: State<V>)
    ensures
        ({
            let (o1, s1) = spec_run::<Inp, V, M>(m.matcher, inp, rec, s);
            let r = m.spec_match(inp, rec, s);
            &&& o1 is Done ==> r == (Outcome::<bool>::Done(true), s1)
            &&& !(o1 is Done) ==> r == (o1, s1)
        }),
{
}

} // verus!
