//! Committed sequences: once the first part matched, a miss of the second part is an error.
use vstd::prelude::*;
use crate::matcher::lemma_run_handler_blind;
use crate::context::{Outcome, ParserContext, State, exec_state};
use crate::error::{MatcherRunError, RunErrorView};
use crate::error_handler::{ErrorHandler, HandlerModel, MultiErrorHandler, MultiErrorHandlerModel};
use crate::input::{Input, InputStream};
use crate::matcher::{
    Matcher, NoMemoizeBacktrackingRunner, lemma_grows_trans, lemma_run_bounds, run_match, spec_run,
};
use crate::memo_store::{MemoEntry, MemoParserId, MemoStore};

verus! {

/// Runs `commit_on`, then `then_matcher`. Where the first matches and the second misses,
/// a first pass asks for a rerun in recovery mode; a recovery pass reports the furthest
/// failure inside the second part, collected by a fresh handler and with an empty memo
/// store, as an error. The context's memo store is put back on every exit of that run.
pub struct CommitMatcher<C, T> {
    /// The part that commits.
    pub commit_on: C,
    /// The part that must follow.
    pub then_matcher: T,
}

impl<C, T> CommitMatcher<C, T> {
    /// See [`commit_on`].
    pub fn new(commit_on: C, then_matcher: T) -> (r: Self)
        ensures
            r.commit_on == commit_on,
            r.then_matcher == then_matcher,
    {
        CommitMatcher { commit_on, then_matcher }
    }
}

/// See [`CommitMatcher`].
pub fn commit_on<C, T>(commit: C, then_matcher: T) -> (r: CommitMatcher<C, T>)
    ensures
        r.commit_on == commit,
        r.then_matcher == then_matcher,
{
    CommitMatcher::new(commit, then_matcher)
}

/// The error of a miss after the commit point in recovery mode: the furthest failure the
/// inner handler saw.
pub open spec fn commit_failure(eh: HandlerModel) -> RunErrorView {
    match eh {
        HandlerModel::Multi(m) => RunErrorView::FurthestFail(m.report()),
        HandlerModel::Empty => RunErrorView::RetryRerunNeeded,
    }
}

impl<Inp: Input, V, C: Matcher<Inp, V>, T: Matcher<Inp, V>> Matcher<Inp, V> for CommitMatcher<C, T> {
    open spec fn wf(&self) -> bool {
        self.commit_on.wf() && self.then_matcher.wf()
    }

    open spec fn spec_label(&self) -> Option<Seq<char>> {
        None
    }

    open spec fn spec_match(&self, inp: Inp, rec: bool, s: State<V>) -> (Outcome<bool>, State<V>) {
        let (o1, s1) = spec_run::<Inp, V, C>(self.commit_on, inp, rec, s);
        match o1 {
            Outcome::Done(true) => {
                if !rec {
                    let (o2, s2) = spec_run::<Inp, V, T>(self.then_matcher, inp, rec, s1);
                    match o2 {
                        Outcome::Done(false) => (Outcome::Failed(RunErrorView::RetryRerunNeeded), s2),
                        _ => (o2, s2),
                    }
                } else {
                    let inner = HandlerModel::Multi(MultiErrorHandlerModel::initial(s1.pos as usize));
                    let (o2, s2) = spec_run::<Inp, V, T>(
                        self.then_matcher,
                        inp,
                        rec,
                        State { eh: inner, memo: Map::empty(), ..s1 },
                    );
                    match o2 {
                        Outcome::Done(true) => (
                            Outcome::Done(true),
                            State { eh: s1.eh, memo: s1.memo, ..s2 },
                        ),
                        Outcome::Done(false) => (
                            Outcome::Failed(commit_failure(s2.eh)),
                            State { eh: s1.eh, memo: s1.memo, ..s2 },
                        ),
                        Outcome::Failed(e) => (
                            Outcome::Failed(e),
                            State { eh: s1.eh, memo: s1.memo, ..s2 },
                        ),
                        Outcome::Stuck => (Outcome::Stuck, s2),
                    }
                }
            },
            _ => (o1, s1),
        }
    }

    proof fn lemma_match_bounds(&self, inp: Inp, rec: bool, s: State<V>) {
        lemma_run_bounds::<Inp, V, C>(self.commit_on, inp, rec, s);
        let (o1, s1) = spec_run::<Inp, V, C>(self.commit_on, inp, rec, s);
        if o1 == Outcome::<bool>::Done(true) {
            let inner = HandlerModel::Multi(MultiErrorHandlerModel::initial(s1.pos as usize));
            let t = if !rec {
                s1
            } else {
                State { eh: inner, memo: Map::empty(), ..s1 }
            };
            lemma_run_bounds::<Inp, V, T>(self.then_matcher, inp, rec, t);
            lemma_grows_trans(s, t, spec_run::<Inp, V, T>(self.then_matcher, inp, rec, t).1);
        }
    }

    proof fn lemma_match_handler_blind(&self, inp: Inp, rec: bool, s: State<V>, eh2: HandlerModel) {
        lemma_run_bounds::<Inp, V, C>(self.commit_on, inp, rec, s);
        lemma_run_handler_blind::<Inp, V, C>(self.commit_on, inp, rec, s, eh2);
        lemma_run_handler_blind::<Inp, V, C>(self.commit_on, inp, rec, s.with_eh(eh2), s.eh);
        let (o1, s1) = spec_run::<Inp, V, C>(self.commit_on, inp, rec, s);
        let (o1b, s1b) = spec_run::<Inp, V, C>(self.commit_on, inp, rec, s.with_eh(eh2));
        if o1 == Outcome::<bool>::Done(true) {
            if o1b == Outcome::<bool>::Done(true) {
                assert(s1b == s1.with_eh(s1b.eh));
            }
            if !rec {
                let e = if o1b == Outcome::<bool>::Done(true) { s1b.eh } else { s1.eh };
                lemma_run_handler_blind::<Inp, V, T>(self.then_matcher, inp, rec, s1, e);
            } else if o1b == Outcome::<bool>::Done(true) {
                let inner = HandlerModel::Multi(MultiErrorHandlerModel::initial(s1.pos as usize));
                assert(State { eh: inner, memo: Map::empty(), ..s1b } == State {
                    eh: inner,
                    memo: Map::empty(),
                    ..s1
                });
            }
        }
    }

    fn maybe_label(&self) -> (l: Option<String>) {
        None
    }

    fn match_with_runner<EH: ErrorHandler>(
        &self,
        ctx: &mut ParserContext<V>,
        runner: &mut NoMemoizeBacktrackingRunner<V>,
        eh: &mut EH,
        input: &mut InputStream<Inp>,
    ) -> (r: Result<bool, MatcherRunError>) {
        proof {
            lemma_run_bounds::<Inp, V, C>(
                self.commit_on,
                input.input,
                ctx.is_in_error_recovery,
                exec_state(ctx, runner.stack@, eh, input),
            );
        }
        match run_match(&self.commit_on, ctx, runner, eh, input) {
            Ok(true) => {},
            other => return other,
        }
        if !ctx.is_in_error_recovery {
            return match run_match(&self.then_matcher, ctx, runner, eh, input) {
                Ok(false) => Err(MatcherRunError::RetryRerunNeeded),
                other => other,
            };
        }
        let mut inner = MultiErrorHandler::new(input.get_pos());
        let mut cache: MemoStore<V> = MemoStore::new();
        std::mem::swap(&mut ctx.memo_store, &mut cache);
        let run = run_match(&self.then_matcher, ctx, runner, &mut inner, input);
        std::mem::swap(&mut ctx.memo_store, &mut cache);
        let result = match run {
            Ok(b) => b,
            Err(e) => return Err(e),
        };
        if result {
            Ok(true)
        } else {
            Err(MatcherRunError::FurthestFail(inner.to_parser_error()))
        }
    }
}

/// A committed rule misses only where its commit part misses: once that part matched,
/// the rule matches or aborts with an error.
pub proof fn lemma_commit_no_miss_after_commit<Inp: Input, V, C: Matcher<Inp, V>, T: Matcher<Inp, V>>(
    m: CommitMatcher<C, T>,
    inp: Inp,
    rec: bool,
    s: State<V>,
)
    ensures
        m.spec_match(inp, rec, s).0 == Outcome::<bool>::Done(false) ==> spec_run::<Inp, V, C>(
            m.commit_on,
            inp,
            rec,
            s,
        ).0 == Outcome::<bool>::Done(false),
{
}

/// In a recovery pass the part after the commit point runs with an empty memo store, and
/// the memo store the rule started with is put back however that part ends.
pub proof fn lemma_commit_restores_memo<Inp: Input, V, C: Matcher<Inp, V>, T: Matcher<Inp, V>>(
    m: CommitMatcher<C, T>,
    inp: Inp,
    s: State<V>,
)
    ensures
        ({
            let (o1, s1) = spec_run::<Inp, V, C>(m.commit_on, inp, true, s);
            let (o, s2) = m.spec_match(inp, true, s);
            o1 == Outcome::<bool>::Done(true) && !(o is Stuck) ==> s2.memo == s1.memo
        }),
{
}

} // verus!
