//! `matcher+`: one mandatory run, then repeated runs until one misses.
use vstd::prelude::*;
use crate::context::same_but_handler;
use crate::matcher::lemma_run_handler_blind;
use crate::error_handler::HandlerModel;
use crate::context::{memo_ok, Outcome, ParserContext, State, exec_state};
use crate::error::MatcherRunError;
use crate::error_handler::ErrorHandler;
use crate::input::{Input, InputStream};
use crate::matcher::{
    Matcher, NoMemoizeBacktrackingRunner, grows, lemma_grows_trans, lemma_run_bounds, run_match,
    spec_run,
};

verus! {

/// `matcher+`. The repetition has no progress check: an inner match that consumes
/// nothing is repeated without end.
pub struct OneOrMore<M> {
    /// The repeated matcher.
    pub matcher: M,
}

impl<M> OneOrMore<M> {
    /// Repeat `matcher` one or more times.
    pub fn new(matcher: M) -> (r: Self)
        ensures
            r.matcher == matcher,
    {
        OneOrMore { matcher }
    }
}

/// See [`OneOrMore`].
pub fn one_or_more<M>(matcher: M) -> (r: OneOrMore<M>)
    ensures
        r.matcher == matcher,
{
    OneOrMore::new(matcher)
}

/// Runs of `m` from `s` until one misses, which ends the repetition with a match. A run
/// that matches without consuming input would be repeated without end: that outcome is
/// [`Outcome::Stuck`].
pub open spec fn spec_repeat<Inp: Input, V, M: Matcher<Inp, V>>(
    m: M,
    inp: Inp,
    rec: bool,
    s: State<V>,
) -> (Outcome<bool>, State<V>)
    decreases inp.spec_len() - s.pos,
{
    let (o, s2) = spec_run::<Inp, V, M>(m, inp, rec, s);
    match o {
        Outcome::Done(true) => {
            if s.pos < s2.pos <= inp.spec_len() {
                spec_repeat::<Inp, V, M>(m, inp, rec, s2)
            } else {
                (Outcome::Stuck, s2)
            }
        },
        Outcome::Done(false) => (Outcome::Done(true), s2),
        _ => (o, s2),
    }
}

/// Bounds of [`spec_repeat`].
pub proof fn lemma_repeat_bounds<Inp: Input, V, M: Matcher<Inp, V>>(
    m: M,
    inp: Inp,
    rec: bool,
    s: State<V>,
)
    requires
        m.wf(),
        s.valid(inp.spec_len()),
    ensures
        ({
            let (o, s2) = spec_repeat::<Inp, V, M>(m, inp, rec, s);
            &&& s2.valid(inp.spec_len())
            &&& o == Outcome::Done(true) ==> s.pos <= s2.pos
            &&& grows(s, s2)
        }),
    decreases inp.spec_len() - s.pos,
{
    lemma_run_bounds::<Inp, V, M>(m, inp, rec, s);
    let (o, s2) = spec_run::<Inp, V, M>(m, inp, rec, s);
    if o == Outcome::<bool>::Done(true) && s.pos < s2.pos <= inp.spec_len() {
        lemma_repeat_bounds::<Inp, V, M>(m, inp, rec, s2);
        lemma_grows_trans(s, s2, spec_repeat::<Inp, V, M>(m, inp, rec, s2).1);
    }
}

/// [`spec_repeat`] depends on the error handler's state only through whether it collects errors
/// (see [`Matcher::lemma_match_handler_blind`]).
pub proof fn lemma_repeat_handler_blind<Inp: Input, V, M: Matcher<Inp, V>>(
    m: M,
    inp: Inp,
    rec: bool,
    s: State<V>,
    eh2: HandlerModel,
)
    requires
        m.wf(),
        s.valid(inp.spec_len()),
        eh2.is_real() == s.eh.is_real(),
    ensures
        ({
            let (o1, s1) = spec_repeat::<Inp, V, M>(m, inp, rec, s);
            let (o2, s2) = spec_repeat::<Inp, V, M>(m, inp, rec, s.with_eh(eh2));
            &&& !(o1 is Stuck) ==> s1.eh.is_real() == s.eh.is_real()
            &&& !(o1 is Stuck) && !(o2 is Stuck) ==> o1 == o2 && same_but_handler(s1, s2)
        }),
    decreases inp.spec_len() - s.pos,
{
    lemma_run_bounds::<Inp, V, M>(m, inp, rec, s);
    lemma_run_handler_blind::<Inp, V, M>(m, inp, rec, s, eh2);
    lemma_run_handler_blind::<Inp, V, M>(m, inp, rec, s.with_eh(eh2), s.eh);
    let (o1, s1) = spec_run::<Inp, V, M>(m, inp, rec, s);
    let (o1b, s1b) = spec_run::<Inp, V, M>(m, inp, rec, s.with_eh(eh2));
    if o1 == Outcome::<bool>::Done(true) && s.pos < s1.pos <= inp.spec_len() {
        let e = if o1b == Outcome::<bool>::Done(true) { s1b.eh } else { s1.eh };
        if o1b == Outcome::<bool>::Done(true) {
            assert(s1b == s1.with_eh(s1b.eh));
        }
        lemma_repeat_handler_blind::<Inp, V, M>(m, inp, rec, s1, e);
    }
}

impl<Inp: Input, V, M: Matcher<Inp, V>> Matcher<Inp, V> for OneOrMore<M> {
    open spec fn wf(&self) -> bool {
        self.matcher.wf()
    }

    open spec fn spec_label(&self) -> Option<Seq<char>> {
        None
    }

    open spec fn spec_match(&self, inp: Inp, rec: bool, s: State<V>) -> (Outcome<bool>, State<V>) {
        let (o, s1) = spec_run::<Inp, V, M>(self.matcher, inp, rec, s);
        match o {
            Outcome::Done(true) => spec_repeat::<Inp, V, M>(self.matcher, inp, rec, s1),
            _ => (o, s1),
        }
    }

    proof fn lemma_match_bounds(&self, inp: Inp, rec: bool, s: State<V>) {
        lemma_run_bounds::<Inp, V, M>(self.matcher, inp, rec, s);
        let (o, s1) = spec_run::<Inp, V, M>(self.matcher, inp, rec, s);
        if o == Outcome::<bool>::Done(true) {
            lemma_repeat_bounds::<Inp, V, M>(self.matcher, inp, rec, s1);
            lemma_grows_trans(s, s1, spec_repeat::<Inp, V, M>(self.matcher, inp, rec, s1).1);
        }
    }

    proof fn lemma_match_handler_blind(&self, inp: Inp, rec: bool, s: State<V>, eh2: HandlerModel) {
        lemma_run_bounds::<Inp, V, M>(self.matcher, inp, rec, s);
        lemma_run_handler_blind::<Inp, V, M>(self.matcher, inp, rec, s, eh2);
        lemma_run_handler_blind::<Inp, V, M>(self.matcher, inp, rec, s.with_eh(eh2), s.eh);
        let (o1, s1) = spec_run::<Inp, V, M>(self.matcher, inp, rec, s);
        let (o1b, s1b) = spec_run::<Inp, V, M>(self.matcher, inp, rec, s.with_eh(eh2));
        if o1 == Outcome::<bool>::Done(true) {
            let e = if o1b == Outcome::<bool>::Done(true) { s1b.eh } else { s1.eh };
            if o1b == Outcome::<bool>::Done(true) {
                assert(s1b == s1.with_eh(s1b.eh));
            }
            lemma_repeat_handler_blind::<Inp, V, M>(self.matcher, inp, rec, s1, e);
        }
    }

    fn maybe_label(&self) -> (l: Option<String>) {
        None
    }

    fn match_with_runner<EH: ErrorHandler>(
        &self,
        ctx: &mut ParserContext<V>,
        runner: &mut NoMemoizeBacktrackingRunner<V>,
        eh: &mut EH,
        input: &mut InputStream<Inp>,
    ) -> (r: Result<bool, MatcherRunError>) {
        let ghost inp = input.input;
        let ghost rec = ctx.is_in_error_recovery;
        proof {
            lemma_run_bounds::<Inp, V, M>(
                self.matcher,
                inp,
                rec,
                exec_state(ctx, runner.stack@, eh, input),
            );
        }
        match run_match(&self.matcher, ctx, runner, eh, input) {
            Ok(true) => {},
            other => return other,
        }
        let ghost goal = spec_repeat::<Inp, V, M>(
            self.matcher,
            inp,
            rec,
            exec_state(ctx, runner.stack@, eh, input),
        );
        loop
            invariant
                self.matcher.wf(),
                inp == old(input).input,
                rec == old(ctx).is_in_error_recovery,
                goal == self.spec_match(
                    inp,
                    rec,
                    exec_state(old(ctx), old(runner).stack@, old(eh), old(input)),
                ),
                input.input == inp,
                ctx.is_in_error_recovery == rec,
                input.pos <= inp.spec_len(),
                memo_ok(ctx.memo_store@, inp.spec_len()),
                inp.spec_len() <= usize::MAX,
                spec_repeat::<Inp, V, M>(self.matcher, inp, rec, exec_state(ctx, runner.stack@, eh, input))
                    == goal,
                !(goal.0 is Stuck),
            decreases inp.spec_len() - input.pos,
        {
            let before = input.get_pos();
            proof {
                lemma_run_bounds::<Inp, V, M>(
                    self.matcher,
                    inp,
                    rec,
                    exec_state(ctx, runner.stack@, eh, input),
                );
            }
            match run_match(&self.matcher, ctx, runner, eh, input) {
                Err(e) => {
                    return Err(e);
                },
                Ok(false) => {
                    return Ok(true);
                },
                Ok(true) => {},
            }
        }
    }
}

/// A repetition after a first match never misses.
pub proof fn lemma_repeat_never_misses<Inp: Input, V, M: Matcher<Inp, V>>(
    m: M,
    inp: Inp,
    rec: bool,
    s: State<V>,
)
    ensures
        spec_repeat::<Inp, V, M>(m, inp, rec, s).0 != Outcome::<bool>::Done(false),
    decreases inp.spec_len() - s.pos,
{
    let (o, s2) = spec_run::<Inp, V, M>(m, inp, rec, s);
    if o == Outcome::<bool>::Done(true) && s.pos < s2.pos <= inp.spec_len() {
        lemma_repeat_never_misses::<Inp, V, M>(m, inp, rec, s2);
    }
}

/// `matcher+` misses exactly where its first run misses.
pub proof fn lemma_one_or_more_misses_on_first<Inp: Input, V, M: Matcher<Inp, V>>(
    m: M,
    inp: Inp,
    rec: bool,
    s: State<V>,
)
    ensures
        ((OneOrMore { matcher: m }).spec_match(inp, rec, s).0 == Outcome::<bool>::Done(false))
            == (spec_run::<Inp, V, M>(m, inp, rec, s).0 == Outcome::<bool>::Done(false)),
{
    let (o, s1) = spec_run::<Inp, V, M>(m, inp, rec, s);
    if o == Outcome::<bool>::Done(true) {
        lemma_repeat_never_misses::<Inp, V, M>(m, inp, rec, s1);
    }
}

/// `matcher+` needs a first match: where the first run misses or aborts, that is its
/// outcome at the state the run left; after a first match, each further run that matches and
/// moves forward is followed by another, a run that misses ends the repetition with a match
/// at the state it restored, and a run that matches without moving never ends
/// ([`Outcome::Stuck`]).
pub proof fn lemma_one_or_more_steps<Inp: Input, V, M: Matcher<Inp, V>>(
    m: OneOrMore<M>,
    inp: Inp,
    rec: bool,
    s: State<V>,
)
    ensures
        ({
            let (o1, s1) = spec_run::<Inp, V, M>(m.matcher, inp, rec, s);
            let r = m.spec_match(inp, rec, s);
            let (o2, s2) = spec_run::<Inp, V, M>(m.matcher, inp, rec, s1);
            &&& o1 != Outcome::<bool>::Done(true) ==> r == (o1, s1)
            &&& o1 == Outcome::<bool>::Done(true) && o2 == Outcome::<bool>::Done(false) ==> r == (
                Outcome::<bool>::Done(true),
                s2,
            )
            &&& o1 == Outcome::<bool>::Done(true) && o2 == Outcome::<bool>::Done(true) && s1.pos < s2.pos
                <= inp.spec_len() ==> r == spec_repeat::<Inp, V, M>(m.matcher, inp, rec, s2)
            &&& o1 == Outcome::<bool>::Done(true) && o2 == Outcome::<bool>::Done(true) && !(s1.pos < s2.pos
                <= inp.spec_len()) ==> r.0 is Stuck
        }),
{
}

} // verus!
