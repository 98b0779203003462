//! Skipping unwanted syntax, for handlers that collect errors.
use vstd::prelude::*;
use crate::matcher::lemma_run_handler_blind;
use crate::error_handler::HandlerModel;
use crate::context::{Outcome, ParserContext, State, error_views};
use crate::error::{MatcherRunError, ParserErrorView, UnwantedError};
use crate::error_handler::ErrorHandler;
use crate::input::{Input, InputStream};
use crate::matcher::{Matcher, NoMemoizeBacktrackingRunner, lemma_run_bounds, run_match, spec_run};

verus! {

broadcast use vstd::seq::group_seq_axioms;

/// Where `inner` matches: with a handler that collects errors, record an unwanted-syntax
/// error with `message` for the matched span and match; otherwise miss. Where `inner`
/// misses, match without consuming input.
pub struct UnwantedMatcher<I> {
    /// Inner matcher.
    pub inner: I,
    /// Message of the recorded error.
    pub message: String,
}

impl<I> UnwantedMatcher<I> {
    /// Wrap `inner`.
    pub fn new(inner: I, message: String) -> (r: Self)
        ensures
            r.inner == inner,
            r.message@ == message@,
    {
        UnwantedMatcher { inner, message }
    }
}

/// See [`UnwantedMatcher`].
pub fn unwanted<I>(inner: I, message: String) -> (r: UnwantedMatcher<I>)
    ensures
        r.inner == inner,
        r.message@ == message@,
{
    UnwantedMatcher::new(inner, message)
}

impl<Inp: Input, V, I: Matcher<Inp, V>> Matcher<Inp, V> for UnwantedMatcher<I> {
    open spec fn wf(&self) -> bool {
        self.inner.wf()
    }

    open spec fn spec_label(&self) -> Option<Seq<char>> {
        None
    }

    open spec fn spec_match(&self, inp: Inp, rec: bool, s: State<V>) -> (Outcome<bool>, State<V>) {
        let (o, s2) = spec_run::<Inp, V, I>(self.inner, inp, rec, s);
        match o {
            Outcome::Done(true) => {
                if s2.eh.is_real() {
                    let d = ParserErrorView::Unwanted((s.pos as usize, s2.pos as usize), self.message@);
                    (Outcome::Done(true), State { errors: s2.errors.push(d), ..s2 })
                } else {
                    (Outcome::Done(false), s2)
                }
            },
            Outcome::Done(false) => (Outcome::Done(true), s2),
            _ => (o, s2),
        }
    }

    proof fn lemma_match_bounds(&self, inp: Inp, rec: bool, s: State<V>) {
        lemma_run_bounds::<Inp, V, I>(self.inner, inp, rec, s);
        let (o, s2) = spec_run::<Inp, V, I>(self.inner, inp, rec, s);
        let d = ParserErrorView::Unwanted((s.pos as usize, s2.pos as usize), self.message@);
        assert(s2.errors.push(d).take(s.errors.len() as int) =~= s2.errors.take(s.errors.len() as int));
    }

    proof fn lemma_match_handler_blind(&self, inp: Inp, rec: bool, s: State<V>, eh2: HandlerModel) {
        lemma_run_handler_blind::<Inp, V, I>(self.inner, inp, rec, s, eh2);
        lemma_run_handler_blind::<Inp, V, I>(self.inner, inp, rec, s.with_eh(eh2), s.eh);
    }

    fn maybe_label(&self) -> (l: Option<String>) {
        None
    }

    fn match_with_runner<EH: ErrorHandler>(
        &self,
        ctx: &mut ParserContext<V>,
        runner: &mut NoMemoizeBacktrackingRunner<V>,
        eh: &mut EH,
        input: &mut InputStream<Inp>,
    ) -> (r: Result<bool, MatcherRunError>) {
        let start_pos = input.get_pos();
        match run_match(&self.inner, ctx, runner, eh, input) {
            Ok(true) => {
                if eh.is_real() {
                    let end_pos = input.get_pos();
                    let e = UnwantedError { span: (start_pos, end_pos), message: self.message.clone() };
                    let ghost before = ctx.error_stack@;
                    let pe = e.as_parser_error();
                    ctx.push_stack_error(pe);
                    proof {
                        assert(error_views(ctx.error_stack@) =~= error_views(before).push(pe@));
                    }
                    Ok(true)
                } else {
                    Ok(false)
                }
            },
            Ok(false) => Ok(true),
            Err(e) => Err(e),
        }
    }
}

/// Where the wrapped matcher matches: with a handler that collects errors the matcher matches
/// and records one unwanted-syntax diagnostic with its message over the matched span; with
/// a handler that records nothing it misses. Where the wrapped matcher misses, the matcher
/// matches at the restored state; an abort is the wrapped matcher's.
pub proof fn lemma_unwanted_outcome<Inp: Input, V, I: Matcher<Inp, V>>(
    m: UnwantedMatcher<I>,
    inp: Inp,
    rec: bool,
    s: State<V>,
)
    ensures
        ({
            let (o, s1) = spec_run::<Inp, V, I>(m.inner, inp, rec, s);
            let r = m.spec_match(inp, rec, s);
            &&& o == Outcome::<bool>::Done(true) && s1.eh.is_real() ==> r == (
                Outcome::<bool>::Done(true),
                State {
                    errors: s1.errors.push(
                        ParserErrorView::Unwanted((s.pos as usize, s1.pos as usize), m.message@),
                    ),
                    ..s1
                },
            )
            &&& o == Outcome::<bool>::Done(true) && !s1.eh.is_real() ==> r == (Outcome::<bool>::Done(false), s1)
            &&& o == Outcome::<bool>::Done(false) ==> r == (Outcome::<bool>::Done(true), s1)
            &&& !(o is Done) ==> r == (o, s1)
        }),
{
}

} // verus!
