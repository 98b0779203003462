//! Local error recovery: where a parser fails hard, skip input with a recovery matcher and
//! produce a fallback value.
use vstd::prelude::*;
use crate::matcher::lemma_run_handler_blind;
use crate::error_handler::HandlerModel;
use crate::context::{Outcome, ParserContext, State, error_views, exec_state};
use crate::error::{MatcherRunError, ParserError, ParserErrorView, RunErrorView};
use crate::error_handler::ErrorHandler;
use crate::input::{Input, InputStream};
use crate::matcher::{Matcher, NoMemoizeBacktrackingRunner, lemma_grows_trans, lemma_run_bounds, run_match, spec_run};
use crate::parser::{Parser, clone_exact};

verus! {

broadcast use vstd::seq::group_seq_axioms;

/// Runs `happy`; where it fails with a furthest-failure error, goes back to the start,
/// runs `recover_matcher`, and where that matches records the error and produces
/// `recover_output`. A request for a recovery rerun is passed on unchanged.
pub struct ErrorRecoverer<P, M, O> {
    /// The parser tried first.
    pub happy: P,
    /// Skips the broken input.
    pub recover_matcher: M,
    /// The value produced after a recovery.
    pub recover_output: O,
}

impl<P, M, O> ErrorRecoverer<P, M, O> {
    /// Recover `happy` with `recover_matcher`, producing `recover_output`.
    pub fn new(happy: P, recover_matcher: M, recover_output: O) -> (r: Self)
        ensures
            r.happy == happy,
            r.recover_matcher == recover_matcher,
            r.recover_output == recover_output,
    {
        ErrorRecoverer { happy, recover_matcher, recover_output }
    }
}

impl<Inp: Input, V, P: Parser<Inp, V>, M: Matcher<Inp, V>> Parser<Inp, V> for ErrorRecoverer<
    P,
    M,
    P::Output,
> where P::Output: Clone {
    type Output = P::Output;

    open spec fn wf(&self) -> bool {
        self.happy.wf() && self.recover_matcher.wf() && clone_exact(self.recover_output)
    }

    open spec fn spec_label(&self) -> Option<Seq<char>> {
        None
    }

    open spec fn spec_parse(&self, inp: Inp, rec: bool, s: State<V>) -> (Outcome<Option<P::Output>>, State<V>) {
        let (o, s1) = self.happy.spec_parse(inp, rec, s);
        match o {
            Outcome::Failed(RunErrorView::FurthestFail(fv)) => {
                let (o2, s2) = spec_run::<Inp, V, M>(
                    self.recover_matcher,
                    inp,
                    rec,
                    s1.at(s.pos).with_binds(Seq::empty()),
                );
                match o2 {
                    Outcome::Done(true) => (
                        Outcome::Done(Some(self.recover_output)),
                        State {
                            errors: s2.errors.push(ParserErrorView::FurthestFail(fv)),
                            ..s2
                        }.with_binds(s.binds),
                    ),
                    Outcome::Stuck => (Outcome::Stuck, s2.with_binds(s.binds)),
                    _ => (Outcome::Failed(RunErrorView::FurthestFail(fv)), s2.with_binds(s.binds)),
                }
            },
            _ => (o, s1),
        }
    }

    proof fn lemma_parse_bounds(&self, inp: Inp, rec: bool, s: State<V>) {
        self.happy.lemma_parse_bounds(inp, rec, s);
        let (o, s1) = self.happy.spec_parse(inp, rec, s);
        if let Outcome::Failed(RunErrorView::FurthestFail(fv)) = o {
            let t = s1.at(s.pos).with_binds(Seq::empty());
            lemma_run_bounds::<Inp, V, M>(self.recover_matcher, inp, rec, t);
            let s2 = spec_run::<Inp, V, M>(self.recover_matcher, inp, rec, t).1;
            assert(s2.errors.push(ParserErrorView::FurthestFail(fv)).take(s.errors.len() as int)
                =~= s2.errors.take(s.errors.len() as int));
            assert(s2.errors.take(s.errors.len() as int) =~= s2.errors.take(s1.errors.len() as int).take(
                s.errors.len() as int,
            ));
            assert(s.binds.take(s.binds.len() as int) =~= s.binds);
        }
    }

    proof fn lemma_parse_handler_blind(&self, inp: Inp, rec: bool, s: State<V>, eh2: HandlerModel) {
        self.happy.lemma_parse_bounds(inp, rec, s);
        self.happy.lemma_parse_handler_blind(inp, rec, s, eh2);
        self.happy.lemma_parse_handler_blind(inp, rec, s.with_eh(eh2), s.eh);
        let (o, s1) = self.happy.spec_parse(inp, rec, s);
        let (ob, s1b) = self.happy.spec_parse(inp, rec, s.with_eh(eh2));
        if let Outcome::Failed(RunErrorView::FurthestFail(fv)) = o {
            let t = s1.at(s.pos).with_binds(Seq::empty());
            let e = if ob == o { s1b.eh } else { s1.eh };
            if ob == o {
                assert(s1b == s1.with_eh(s1b.eh));
                assert(s1b.at(s.pos).with_binds(Seq::empty()) == t.with_eh(s1b.eh));
            }
            lemma_run_handler_blind::<Inp, V, M>(self.recover_matcher, inp, rec, t, e);
        }
    }

    fn maybe_label(&self) -> (l: Option<String>) {
        None
    }

    fn parse<EH: ErrorHandler>(
        &self,
        ctx: &mut ParserContext<V>,
        eh: &mut EH,
        input: &mut InputStream<Inp>,
    ) -> (r: Result<Option<P::Output>, MatcherRunError>) {
        let start_pos = input.get_pos();
        proof {
            self.happy.lemma_parse_bounds(
                input.input,
                ctx.is_in_error_recovery,
                exec_state(ctx, Seq::empty(), eh, input),
            );
        }
        match self.happy.parse(ctx, eh, input) {
            Err(MatcherRunError::FurthestFail(fe)) => {
                input.set_pos(start_pos);
                let mut runner = NoMemoizeBacktrackingRunner::new();
                proof {
                    assert(runner.stack@ =~= Seq::<crate::context::Bound<V>>::empty());
                }
                let recovered = match run_match(&self.recover_matcher, ctx, &mut runner, eh, input) {
                    Ok(b) => b,
                    Err(_) => false,
                };
                if recovered {
                    let ghost before = ctx.error_stack@;
                    let pe = ParserError::FurthestFail(fe);
                    ctx.push_stack_error(pe);
                    proof {
                        assert(error_views(ctx.error_stack@) =~= error_views(before).push(pe@));
                    }
                    Ok(Some(self.recover_output.clone()))
                } else {
                    Err(MatcherRunError::FurthestFail(fe))
                }
            },
            other => other,
        }
    }
}

/// A recoverer is its happy parser, except where that parser reports a furthest failure: then
/// the recovery matcher runs from the start position with no values bound, and where it
/// matches the recoverer produces the fallback output and records the failure as a
/// diagnostic; where it does not, the failure stands.
pub proof fn lemma_recoverer_outcome<Inp: Input, V, P: Parser<Inp, V>, M: Matcher<Inp, V>>(
    r: ErrorRecoverer<P, M, P::Output>,
    inp: Inp,
    rec: bool,
    s: State<V>,
) where P::Output: Clone
    ensures
        ({
            let (o, s1) = r.happy.spec_parse(inp, rec, s);
            let res = r.spec_parse(inp, rec, s);
            &&& !(o matches Outcome::Failed(RunErrorView::FurthestFail(_))) ==> res == (o, s1)
            &&& o matches Outcome::Failed(RunErrorView::FurthestFail(fv)) ==> {
                let (o2, s2) = spec_run::<Inp, V, M>(r.recover_matcher, inp, rec, s1.at(s.pos).with_binds(Seq::empty()));
                &&& o2 == Outcome::<bool>::Done(true) ==> res == (
                    Outcome::Done(Some(r.recover_output)),
                    State { errors: s2.errors.push(ParserErrorView::FurthestFail(fv)), ..s2 }.with_binds(s.binds),
                )
                &&& o2 == Outcome::<bool>::Done(false) ==> res.0 == Outcome::<Option<P::Output>>::Failed(
                    RunErrorView::FurthestFail(fv),
                )
            }
        }),
{
}

} // verus!
