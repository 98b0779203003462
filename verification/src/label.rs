//! Labels: names that error reports use for what was expected.
use vstd::prelude::*;
use crate::context::{Outcome, ParserContext, State, exec_state, memo_ok, same_but_handler};
use crate::error::MatcherRunError;
use crate::error_handler::{ErrorHandler, HandlerModel, opt_label};
use crate::input::{Input, InputStream};
use crate::matcher::{
    Matcher, NoMemoizeBacktrackingRunner, lemma_run_bounds, register_failure, run_match,
    spec_fail, spec_fail_ok, spec_run, lemma_run_handler_blind,
};
use crate::parser::Parser;

verus! {

/// A matcher or parser reported under `label` when it fails.
pub struct Labeled<I> {
    /// The label.
    pub label: String,
    /// The labelled matcher or parser.
    pub inner: I,
}

impl<I> Labeled<I> {
    /// Label `inner` with `label`.
    pub fn new(label: String, inner: I) -> (r: Self)
        ensures
            r.label@ == label@,
            r.inner == inner,
    {
        Labeled { label, inner }
    }
}

/// Attach a label to a matcher or parser.
pub trait WithLabel: Sized {
    /// `self` labelled with `label`.
    fn with_label(self, label: String) -> (r: Labeled<Self>)
        ensures
            r.label@ == label@,
            r.inner == self,
    ;
}

impl<I> WithLabel for I {
    fn with_label(self, label: String) -> (r: Labeled<Self>) {
        Labeled::new(label, self)
    }
}

impl<Inp: Input, V, I: Matcher<Inp, V>> Matcher<Inp, V> for Labeled<I> {
    open spec fn wf(&self) -> bool {
        self.inner.wf()
    }

    open spec fn spec_label(&self) -> Option<Seq<char>> {
        Some(self.label@)
    }

    open spec fn spec_match(&self, inp: Inp, rec: bool, s: State<V>) -> (Outcome<bool>, State<V>) {
        spec_run::<Inp, V, I>(self.inner, inp, rec, s)
    }

    proof fn lemma_match_bounds(&self, inp: Inp, rec: bool, s: State<V>) {
        lemma_run_bounds::<Inp, V, I>(self.inner, inp, rec, s);
    }

    proof fn lemma_match_handler_blind(&self, inp: Inp, rec: bool, s: State<V>, eh2: HandlerModel) {
        lemma_run_handler_blind::<Inp, V, I>(self.inner, inp, rec, s, eh2);
    }

    fn maybe_label(&self) -> (l: Option<String>) {
        Some(self.label.clone())
    }

    fn match_with_runner<EH: ErrorHandler>(
        &self,
        ctx: &mut ParserContext<V>,
        runner: &mut NoMemoizeBacktrackingRunner<V>,
        eh: &mut EH,
        input: &mut InputStream<Inp>,
    ) -> (r: Result<bool, MatcherRunError>) {
        run_match(&self.inner, ctx, runner, eh, input)
    }
}

impl<Inp: Input, V, I: Parser<Inp, V>> Parser<Inp, V> for Labeled<I> {
    type Output = I::Output;

    open spec fn wf(&self) -> bool {
        self.inner.wf()
    }

    open spec fn spec_label(&self) -> Option<Seq<char>> {
        Some(self.label@)
    }

    /// With a handler that collects errors, the run is a rule of its own: a success closes
    /// it as a success, a miss or an abort as a failure labelled with the label.
    open spec fn spec_parse(&self, inp: Inp, rec: bool, s: State<V>) -> (Outcome<Option<I::Output>>, State<V>) {
        if !s.eh.is_real() {
            self.inner.spec_parse(inp, rec, s)
        } else {
            let (eh1, idx) = s.eh.start(s.pos as usize);
            let (o, s2) = self.inner.spec_parse(inp, rec, State { eh: eh1, ..s });
            match o {
                Outcome::Done(Some(_)) => {
                    if s2.eh.success_ok(idx) {
                        (o, State { eh: s2.eh.success(idx), ..s2 })
                    } else {
                        (Outcome::Stuck, s2)
                    }
                },
                Outcome::Stuck => (Outcome::Stuck, s2),
                _ => {
                    if spec_fail_ok(s2.eh, Some(self.label@), idx, s2.match_start) {
                        (o, State { eh: spec_fail(s2.eh, Some(self.label@), idx, s2.match_start), ..s2 })
                    } else {
                        (Outcome::Stuck, s2)
                    }
                },
            }
        }
    }

    proof fn lemma_parse_bounds(&self, inp: Inp, rec: bool, s: State<V>) {
        if !s.eh.is_real() {
            self.inner.lemma_parse_bounds(inp, rec, s);
        } else {
            let (eh1, idx) = s.eh.start(s.pos as usize);
            self.inner.lemma_parse_bounds(inp, rec, State { eh: eh1, ..s });
        }
    }

    proof fn lemma_parse_handler_blind(&self, inp: Inp, rec: bool, s: State<V>, eh2: HandlerModel) {
        if !s.eh.is_real() {
            self.inner.lemma_parse_handler_blind(inp, rec, s, eh2);
        } else {
            let (eh1, idx) = s.eh.start(s.pos as usize);
            let (eh1b, idxb) = eh2.start(s.pos as usize);
            let t = State { eh: eh1, ..s };
            assert(State { eh: eh1b, ..s.with_eh(eh2) } == t.with_eh(eh1b));
            self.inner.lemma_parse_handler_blind(inp, rec, t, eh1b);
        }
    }

    fn maybe_label(&self) -> (l: Option<String>) {
        Some(self.label.clone())
    }

    fn parse<EH: ErrorHandler>(
        &self,
        ctx: &mut ParserContext<V>,
        eh: &mut EH,
        input: &mut InputStream<Inp>,
    ) -> (r: Result<Option<I::Output>, MatcherRunError>) {
        if !eh.is_real() {
            return self.inner.parse(ctx, eh, input);
        }
        let idx = eh.register_start(input.get_pos());
        match self.inner.parse(ctx, eh, input) {
            Ok(Some(output)) => {
                eh.register_success(idx);
                Ok(Some(output))
            },
            Ok(None) => {
                register_failure(eh, Some(self.label.clone()), idx, ctx.match_start);
                Ok(None)
            },
            Err(e) => {
                register_failure(eh, Some(self.label.clone()), idx, ctx.match_start);
                Err(e)
            },
        }
    }
}

/// A label never changes what a parser does: a labelled run that does not get stuck has the
/// outcome of the unlabelled run from the same state, and leaves the same state apart from
/// the error handler, where the label opens and closes a rule of its own.
pub proof fn lemma_label_keeps_outcome<Inp: Input, V, P: Parser<Inp, V>>(
    l: Labeled<P>,
    inp: Inp,
    rec: bool,
    s: State<V>,
)
    requires
        l.inner.wf(),
        s.valid(inp.spec_len()),
    ensures
        ({
            let (o, s2) = l.spec_parse(inp, rec, s);
            let (oi, si) = l.inner.spec_parse(inp, rec, s);
            !(o is Stuck) && !(oi is Stuck) ==> o == oi && same_but_handler(si, s2)
        }),
{
    if s.eh.is_real() {
        let (eh1, idx) = s.eh.start(s.pos as usize);
        assert(State { eh: eh1, ..s } == s.with_eh(eh1));
        l.inner.lemma_parse_handler_blind(inp, rec, s, eh1);
    } else {
        let (oi, si) = l.inner.spec_parse(inp, rec, s);
        assert(si.with_eh(si.eh) == si);
    }
}

} // verus!
