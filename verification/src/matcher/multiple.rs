//! Zero-or-more repetition; stops when the inner matcher misses or makes no progress.
use vstd::prelude::*;
use crate::error_handler::HandlerModel;
use crate::context::{memo_ok, Outcome, ParserContext, State, exec_state, same_but_handler};
use crate::error::MatcherRunError;
use crate::error_handler::ErrorHandler;
use crate::input::{Input, InputStream};
use crate::parser::capture::CanNotFail;
use crate::matcher::{
    Matcher, NoMemoizeBacktrackingRunner, grows, lemma_grows_trans, lemma_run_bounds,
    lemma_run_handler_blind, run_match, spec_run,
};

verus! {

/// Greedy `matcher*`: always matches (unless a run aborts).
pub struct Multiple<M> {
    /// The repeated matcher.
    pub matcher: M,
}

impl<M> CanNotFail for Multiple<M> {}

/// See [`Multiple`].
pub fn many<M>(matcher: M) -> (r: Multiple<M>)
    ensures
        r.matcher == matcher,
{
    Multiple { matcher }
}

/// Runs of `m` from `s` until one misses or ends where it started; the repetition matches.
pub open spec fn spec_many<Inp: Input, V, M: Matcher<Inp, V>>(
    m: M,
    inp: Inp,
    rec: bool,
    s: State<V>,
) -> (Outcome<bool>, State<V>)
    decreases inp.spec_len() - s.pos,
{
    let (o, s2) = spec_run::<Inp, V, M>(m, inp, rec, s);
    match o {
        Outcome::Done(true) => {
            if s.pos < s2.pos <= inp.spec_len() {
                spec_many::<Inp, V, M>(m, inp, rec, s2)
            } else {
                (Outcome::Done(true), s2)
            }
        },
        Outcome::Done(false) => (Outcome::Done(true), s2),
        _ => (o, s2),
    }
}

/// Bounds of [`spec_many`].
pub proof fn lemma_many_bounds<Inp: Input, V, M: Matcher<Inp, V>>(
    m: M,
    inp: Inp,
    rec: bool,
    s: State<V>,
)
    requires
        m.wf(),
        s.valid(inp.spec_len()),
    ensures
        ({
            let (o, s2) = spec_many::<Inp, V, M>(m, inp, rec, s);
            &&& s2.valid(inp.spec_len())
            &&& o == Outcome::Done(true) ==> s.pos <= s2.pos
            &&& grows(s, s2)
        }),
    decreases inp.spec_len() - s.pos,
{
    lemma_run_bounds::<Inp, V, M>(m, inp, rec, s);
    let (o, s2) = spec_run::<Inp, V, M>(m, inp, rec, s);
    if o == Outcome::<bool>::Done(true) && s.pos < s2.pos <= inp.spec_len() {
        lemma_many_bounds::<Inp, V, M>(m, inp, rec, s2);
        lemma_grows_trans(s, s2, spec_many::<Inp, V, M>(m, inp, rec, s2).1);
    }
}

/// [`spec_many`] depends on the error handler's state only through whether it collects errors
/// (see [`Matcher::lemma_match_handler_blind`]).
pub proof fn lemma_many_handler_blind<Inp: Input, V, M: Matcher<Inp, V>>(
    m: M,
    inp: Inp,
    rec: bool,
    s: State<V>,
    eh2: HandlerModel,
)
    requires
        m.wf(),
        s.valid(inp.spec_len()),
        eh2.is_real() == s.eh.is_real(),
    ensures
        ({
            let (o1, s1) = spec_many::<Inp, V, M>(m, inp, rec, s);
            let (o2, s2) = spec_many::<Inp, V, M>(m, inp, rec, s.with_eh(eh2));
            &&& !(o1 is Stuck) ==> s1.eh.is_real() == s.eh.is_real()
            &&& !(o1 is Stuck) && !(o2 is Stuck) ==> o1 == o2 && same_but_handler(s1, s2)
        }),
    decreases inp.spec_len() - s.pos,
{
    lemma_run_bounds::<Inp, V, M>(m, inp, rec, s);
    lemma_run_handler_blind::<Inp, V, M>(m, inp, rec, s, eh2);
    lemma_run_handler_blind::<Inp, V, M>(m, inp, rec, s.with_eh(eh2), s.eh);
    let (o1, s1) = spec_run::<Inp, V, M>(m, inp, rec, s);
    let (o1b, s1b) = spec_run::<Inp, V, M>(m, inp, rec, s.with_eh(eh2));
    if o1 == Outcome::<bool>::Done(true) && s.pos < s1.pos <= inp.spec_len() {
        let e = if o1b == Outcome::<bool>::Done(true) { s1b.eh } else { s1.eh };
        if o1b == Outcome::<bool>::Done(true) {
            assert(s1b == s1.with_eh(s1b.eh));
        }
        lemma_many_handler_blind::<Inp, V, M>(m, inp, rec, s1, e);
    }
}

impl<Inp: Input, V, M: Matcher<Inp, V>> Matcher<Inp, V> for Multiple<M> {
    open spec fn wf(&self) -> bool {
        self.matcher.wf()
    }

    open spec fn spec_label(&self) -> Option<Seq<char>> {
        None
    }

    open spec fn spec_match(&self, inp: Inp, rec: bool, s: State<V>) -> (Outcome<bool>, State<V>) {
        spec_many::<Inp, V, M>(self.matcher, inp, rec, s)
    }

    proof fn lemma_match_bounds(&self, inp: Inp, rec: bool, s: State<V>) {
        lemma_many_bounds::<Inp, V, M>(self.matcher, inp, rec, s);
    }

    proof fn lemma_match_handler_blind(&self, inp: Inp, rec: bool, s: State<V>, eh2: HandlerModel) {
        lemma_many_handler_blind::<Inp, V, M>(self.matcher, inp, rec, s, eh2);
    }

    fn maybe_label(&self) -> (l: Option<String>) {
        None
    }

    fn match_with_runner<EH: ErrorHandler>(
        &self,
        ctx: &mut ParserContext<V>,
        runner: &mut NoMemoizeBacktrackingRunner<V>,
        eh: &mut EH,
        input: &mut InputStream<Inp>,
    ) -> (r: Result<bool, MatcherRunError>) {
        let ghost inp = input.input;
        let ghost rec = ctx.is_in_error_recovery;
        let ghost goal = spec_many::<Inp, V, M>(
            self.matcher,
            inp,
            rec,
            exec_state(ctx, runner.stack@, eh, input),
        );
        loop
            invariant
                self.matcher.wf(),
                inp == old(input).input,
                rec == old(ctx).is_in_error_recovery,
                goal == spec_many::<Inp, V, M>(
                    self.matcher,
                    inp,
                    rec,
                    exec_state(old(ctx), old(runner).stack@, old(eh), old(input)),
                ),
                input.input == inp,
                ctx.is_in_error_recovery == rec,
                input.pos <= inp.spec_len(),
                memo_ok(ctx.memo_store@, inp.spec_len()),
                inp.spec_len() <= usize::MAX,
                spec_many::<Inp, V, M>(self.matcher, inp, rec, exec_state(ctx, runner.stack@, eh, input))
                    == goal,
                !(goal.0 is Stuck),
            decreases inp.spec_len() - input.pos,
        {
            let before = input.get_pos();
            proof {
                lemma_run_bounds::<Inp, V, M>(
                    self.matcher,
                    inp,
                    rec,
                    exec_state(ctx, runner.stack@, eh, input),
                );
            }
            match run_match(&self.matcher, ctx, runner, eh, input) {
                Err(e) => {
                    return Err(e);
                },
                Ok(false) => {
                    return Ok(true);
                },
                Ok(true) => {
                    if input.get_pos() == before {
                        return Ok(true);
                    }
                },
            }
        }
    }
}

/// A repetition never misses: it matches (possibly nothing) unless a run aborts.
pub proof fn lemma_many_never_misses<Inp: Input, V, M: Matcher<Inp, V>>(
    m: M,
    inp: Inp,
    rec: bool,
    s: State<V>,
)
    ensures
        spec_many::<Inp, V, M>(m, inp, rec, s).0 != Outcome::<bool>::Done(false),
    decreases inp.spec_len() - s.pos,
{
    let (o, s2) = spec_run::<Inp, V, M>(m, inp, rec, s);
    if o == Outcome::<bool>::Done(true) && s.pos < s2.pos <= inp.spec_len() {
        lemma_many_never_misses::<Inp, V, M>(m, inp, rec, s2);
    }
}

/// `matcher*` runs `matcher` again from where each run that matched and moved forward
/// stopped; it matches at the state a missing run restored, and at the state a run that
/// matched without moving left; an abort of a run is its abort.
pub proof fn lemma_many_steps<Inp: Input, V, M: Matcher<Inp, V>>(m: Multiple<M>, inp: Inp, rec: bool, s: State<V>)
    ensures
        ({
            let (o1, s1) = spec_run::<Inp, V, M>(m.matcher, inp, rec, s);
            let r = m.spec_match(inp, rec, s);
            &&& o1 == Outcome::<bool>::Done(true) && s.pos < s1.pos <= inp.spec_len() ==> r == m.spec_match(
                inp,
                rec,
                s1,
            )
            &&& o1 == Outcome::<bool>::Done(true) && !(s.pos < s1.pos <= inp.spec_len()) ==> r == (
                Outcome::<bool>::Done(true),
                s1,
            )
            &&& o1 == Outcome::<bool>::Done(false) ==> r == (Outcome::<bool>::Done(true), s1)
            &&& !(o1 is Done) ==> r == (o1, s1)
        }),
{
}

} // verus!
