//! Enrich a furthest-failure error with context computed by a parser at the failing rule.
use vstd::prelude::*;
use crate::matcher::lemma_run_handler_blind;
use crate::error_handler::HandlerModel;
use crate::context::{Outcome, ParserContext, State, exec_state};
use crate::error::{FurthestFailError, FurthestFailView, MatcherRunError, RunErrorView};
use crate::error_handler::ErrorHandler;
use crate::input::{Input, InputStream};
use crate::matcher::{Matcher, NoMemoizeBacktrackingRunner, lemma_grows_trans, lemma_run_bounds, run_match, spec_run};
use crate::parser::Parser;

verus! {

broadcast use vstd::seq::group_seq_axioms;

/// Where `happy` aborts with a furthest-failure error, runs `error_parser` from the start
/// position; where that produces an annotator, the annotator rewrites the error. The
/// position is then put back where `happy` stopped, and the error is passed on.
pub struct ErrorContextualizer<H, P> {
    /// The matcher or parser that runs first.
    pub happy: H,
    /// Produces an annotator for the error.
    pub error_parser: P,
}

impl<H, P> ErrorContextualizer<H, P> {
    /// Enrich the errors of `happy` with `error_parser`.
    pub fn new(happy: H, error_parser: P) -> (r: Self)
        ensures
            r.happy == happy,
            r.error_parser == error_parser,
    {
        ErrorContextualizer { happy, error_parser }
    }
}

/// `f` accepts every error and its result depends on the error's contents alone.
pub open spec fn annotator_exact<F: Fn(FurthestFailError) -> FurthestFailError>(f: F) -> bool {
    &&& forall|e: FurthestFailError| call_requires(f, (e,))
    &&& forall|e1: FurthestFailError, e2: FurthestFailError, r1: FurthestFailError, r2: FurthestFailError|
        e1@ == e2@ && #[trigger] call_ensures(f, (e1,), r1) && #[trigger] call_ensures(f, (e2,), r2)
            ==> r1@ == r2@
}

/// `f` may turn an error with contents `e` into one with contents `r`.
pub open spec fn annotates_to<F: Fn(FurthestFailError) -> FurthestFailError>(
    f: F,
    e: FurthestFailView,
    r: FurthestFailView,
) -> bool {
    exists|a: FurthestFailError, b: FurthestFailError| a@ == e && b@ == r && #[trigger] call_ensures(f, (a,), b)
}

/// The contents of what `f` makes of an error with contents `e`.
pub open spec fn annotate<F: Fn(FurthestFailError) -> FurthestFailError>(f: F, e: FurthestFailView) -> FurthestFailView {
    choose|r: FurthestFailView| annotates_to(f, e, r)
}

/// A call of a deterministic annotator gives what [`annotate`] names.
pub proof fn lemma_annotate<F: Fn(FurthestFailError) -> FurthestFailError>(
    f: F,
    a: FurthestFailError,
    b: FurthestFailError,
)
    requires
        annotator_exact(f),
        call_ensures(f, (a,), b),
    ensures
        annotate(f, a@) == b@,
{
    assert(annotates_to(f, a@, b@));
    let r = annotate(f, a@);
    let (a2, b2) = choose|a2: FurthestFailError, b2: FurthestFailError|
        a2@ == a@ && b2@ == r && #[trigger] call_ensures(f, (a2,), b2);
    assert(call_ensures(f, (a2,), b2));
}

/// The error after the error parser ran from `start` in state `s` (a miss or an abort of
/// the error parser leaves it as it is), and the state the error parser left.
pub open spec fn spec_enrich<Inp: Input, V, P: Parser<Inp, V>>(
    p: P,
    e: FurthestFailView,
    inp: Inp,
    rec: bool,
    start: int,
    s: State<V>,
) -> (Outcome<FurthestFailView>, State<V>) where P::Output: Fn(FurthestFailError) -> FurthestFailError {
    let (o, s3) = p.spec_parse(inp, rec, s.at(start).with_binds(Seq::empty()));
    let restored = s3.at(s.pos).with_binds(s.binds);
    match o {
        Outcome::Done(Some(f)) => (Outcome::Done(annotate(f, e)), restored),
        Outcome::Stuck => (Outcome::Stuck, restored),
        _ => (Outcome::Done(e), restored),
    }
}

/// Run the error parser from `start` on the error `e` (see [`spec_enrich`]).
fn enrich<Inp: Input, V, P: Parser<Inp, V>, EH: ErrorHandler>(
    p: &P,
    e: FurthestFailError,
    start: usize,
    ctx: &mut ParserContext<V>,
    eh: &mut EH,
    input: &mut InputStream<Inp>,
) -> (r: FurthestFailError)
    where P::Output: Fn(FurthestFailError) -> FurthestFailError,
    requires
        p.wf(),
        forall|f: P::Output| annotator_exact(f),
        start <= old(input).input.spec_len(),
        old(input).pos <= old(input).input.spec_len(),
        crate::context::memo_ok(old(ctx).memo_store@, old(input).input.spec_len()),
        old(input).input.spec_len() <= usize::MAX,
        !(spec_enrich::<Inp, V, P>(
            *p,
            e@,
            old(input).input,
            old(ctx).is_in_error_recovery,
            start as int,
            exec_state(old(ctx), Seq::empty(), old(eh), old(input)),
        ).0 is Stuck),
    ensures
        final(input).input == old(input).input,
        final(ctx).is_in_error_recovery == old(ctx).is_in_error_recovery,
        ({
            let (o, s2) = spec_enrich::<Inp, V, P>(
                *p,
                e@,
                old(input).input,
                old(ctx).is_in_error_recovery,
                start as int,
                exec_state(old(ctx), Seq::empty(), old(eh), old(input)),
            );
            &&& o == Outcome::Done(r@)
            &&& exec_state(final(ctx), Seq::empty(), final(eh), final(input)) == s2
        }),
{
    let resume = input.get_pos();
    input.set_pos(start);
    let r = match p.parse(ctx, eh, input) {
        Ok(Some(f)) => {
            proof {
                assert(annotator_exact(f));
            }
            let r = f(e);
            proof {
                lemma_annotate(f, e, r);
            }
            r
        },
        _ => e,
    };
    input.set_pos(resume);
    r
}

impl<Inp: Input, V, H: Matcher<Inp, V>, P: Parser<Inp, V>> Matcher<Inp, V> for ErrorContextualizer<H, P> where
    P::Output: Fn(FurthestFailError) -> FurthestFailError,
 {
    open spec fn wf(&self) -> bool {
        self.happy.wf() && self.error_parser.wf() && forall|f: P::Output| annotator_exact(f)
    }

    open spec fn spec_label(&self) -> Option<Seq<char>> {
        None
    }

    open spec fn spec_match(&self, inp: Inp, rec: bool, s: State<V>) -> (Outcome<bool>, State<V>) {
        let (o, s2) = spec_run::<Inp, V, H>(self.happy, inp, rec, s);
        match o {
            Outcome::Failed(RunErrorView::FurthestFail(e)) => {
                let (o2, s3) = spec_enrich::<Inp, V, P>(self.error_parser, e, inp, rec, s.pos, s2);
                match o2 {
                    Outcome::Done(e2) => (Outcome::Failed(RunErrorView::FurthestFail(e2)), s3),
                    _ => (Outcome::Stuck, s3),
                }
            },
            _ => (o, s2),
        }
    }

    proof fn lemma_match_bounds(&self, inp: Inp, rec: bool, s: State<V>) {
        lemma_run_bounds::<Inp, V, H>(self.happy, inp, rec, s);
        let (o, s2) = spec_run::<Inp, V, H>(self.happy, inp, rec, s);
        if let Outcome::Failed(RunErrorView::FurthestFail(e)) = o {
            let t = s2.at(s.pos).with_binds(Seq::empty());
            self.error_parser.lemma_parse_bounds(inp, rec, t);
            let s3 = self.error_parser.spec_parse(inp, rec, t).1;
            assert(s2.binds.take(s.binds.len() as int) == s.binds);
            assert(s3.errors.take(s.errors.len() as int) =~= s3.errors.take(s2.errors.len() as int).take(
                s.errors.len() as int,
            ));
        }
    }

    proof fn lemma_match_handler_blind(&self, inp: Inp, rec: bool, s: State<V>, eh2: HandlerModel) {
        lemma_run_bounds::<Inp, V, H>(self.happy, inp, rec, s);
        lemma_run_handler_blind::<Inp, V, H>(self.happy, inp, rec, s, eh2);
        lemma_run_handler_blind::<Inp, V, H>(self.happy, inp, rec, s.with_eh(eh2), s.eh);
        let (o, s2) = spec_run::<Inp, V, H>(self.happy, inp, rec, s);
        let (ob, s2b) = spec_run::<Inp, V, H>(self.happy, inp, rec, s.with_eh(eh2));
        if let Outcome::Failed(RunErrorView::FurthestFail(e)) = o {
            let t = s2.at(s.pos).with_binds(Seq::empty());
            self.error_parser.lemma_parse_bounds(inp, rec, t);
            let e2 = if ob == o { s2b.eh } else { s2.eh };
            if ob == o {
                assert(s2b == s2.with_eh(s2b.eh));
                assert(s2b.at(s.pos).with_binds(Seq::empty()) == t.with_eh(s2b.eh));
            }
            self.error_parser.lemma_parse_handler_blind(inp, rec, t, e2);
        }
    }

    fn maybe_label(&self) -> (l: Option<String>) {
        None
    }

    fn match_with_runner<EH: ErrorHandler>(
        &self,
        ctx: &mut ParserContext<V>,
        runner: &mut NoMemoizeBacktrackingRunner<V>,
        eh: &mut EH,
        input: &mut InputStream<Inp>,
    ) -> (r: Result<bool, MatcherRunError>) {
        let start = input.get_pos();
        proof {
            lemma_run_bounds::<Inp, V, H>(
                self.happy,
                input.input,
                ctx.is_in_error_recovery,
                exec_state(ctx, runner.stack@, eh, input),
            );
        }
        match run_match(&self.happy, ctx, runner, eh, input) {
            Err(MatcherRunError::FurthestFail(e)) => {
                let e2 = enrich(&self.error_parser, e, start, ctx, eh, input);
                Err(MatcherRunError::FurthestFail(e2))
            },
            other => other,
        }
    }
}

impl<Inp: Input, V, H: Parser<Inp, V>, P: Parser<Inp, V>> Parser<Inp, V> for ErrorContextualizer<H, P> where
    P::Output: Fn(FurthestFailError) -> FurthestFailError,
 {
    type Output = H::Output;

    open spec fn wf(&self) -> bool {
        self.happy.wf() && self.error_parser.wf() && forall|f: P::Output| annotator_exact(f)
    }

    open spec fn spec_label(&self) -> Option<Seq<char>> {
        None
    }

    open spec fn spec_parse(&self, inp: Inp, rec: bool, s: State<V>) -> (Outcome<Option<H::Output>>, State<V>) {
        let (o, s2) = self.happy.spec_parse(inp, rec, s);
        match o {
            Outcome::Failed(RunErrorView::FurthestFail(e)) => {
                let (o2, s3) = spec_enrich::<Inp, V, P>(self.error_parser, e, inp, rec, s.pos, s2);
                match o2 {
                    Outcome::Done(e2) => (Outcome::Failed(RunErrorView::FurthestFail(e2)), s3),
                    _ => (Outcome::Stuck, s3),
                }
            },
            _ => (o, s2),
        }
    }

    proof fn lemma_parse_bounds(&self, inp: Inp, rec: bool, s: State<V>) {
        self.happy.lemma_parse_bounds(inp, rec, s);
        let (o, s2) = self.happy.spec_parse(inp, rec, s);
        if let Outcome::Failed(RunErrorView::FurthestFail(e)) = o {
            let t = s2.at(s.pos).with_binds(Seq::empty());
            self.error_parser.lemma_parse_bounds(inp, rec, t);
            let s3 = self.error_parser.spec_parse(inp, rec, t).1;
            assert(s3.errors.take(s.errors.len() as int) =~= s3.errors.take(s2.errors.len() as int).take(
                s.errors.len() as int,
            ));
            assert(s.binds.take(s.binds.len() as int) =~= s.binds);
        }
    }

    proof fn lemma_parse_handler_blind(&self, inp: Inp, rec: bool, s: State<V>, eh2: HandlerModel) {
        self.happy.lemma_parse_bounds(inp, rec, s);
        self.happy.lemma_parse_handler_blind(inp, rec, s, eh2);
        self.happy.lemma_parse_handler_blind(inp, rec, s.with_eh(eh2), s.eh);
        let (o, s2) = self.happy.spec_parse(inp, rec, s);
        let (ob, s2b) = self.happy.spec_parse(inp, rec, s.with_eh(eh2));
        if let Outcome::Failed(RunErrorView::FurthestFail(e)) = o {
            let t = s2.at(s.pos).with_binds(Seq::empty());
            self.error_parser.lemma_parse_bounds(inp, rec, t);
            let e2 = if ob == o { s2b.eh } else { s2.eh };
            if ob == o {
                assert(s2b == s2.with_eh(s2b.eh));
                assert(s2b.at(s.pos).with_binds(Seq::empty()) == t.with_eh(s2b.eh));
            }
            self.error_parser.lemma_parse_handler_blind(inp, rec, t, e2);
        }
    }

    fn maybe_label(&self) -> (l: Option<String>) {
        None
    }

    fn parse<EH: ErrorHandler>(
        &self,
        ctx: &mut ParserContext<V>,
        eh: &mut EH,
        input: &mut InputStream<Inp>,
    ) -> (r: Result<Option<H::Output>, MatcherRunError>) {
        let start = input.get_pos();
        proof {
            self.happy.lemma_parse_bounds(
                input.input,
                ctx.is_in_error_recovery,
                exec_state(ctx, Seq::empty(), eh, input),
            );
        }
        match self.happy.parse(ctx, eh, input) {
            Err(MatcherRunError::FurthestFail(e)) => {
                let e2 = enrich(&self.error_parser, e, start, ctx, eh, input);
                Err(MatcherRunError::FurthestFail(e2))
            },
            other => other,
        }
    }
}

} // verus!
