//! Matchers that only take part in a recovery pass.
use vstd::prelude::*;
use crate::error_handler::HandlerModel;
use crate::context::{Outcome, ParserContext, State, error_views, exec_state};
use crate::error::MatcherRunError;
use crate::error_handler::ErrorHandler;
use crate::input::{Input, InputStream};
use crate::matcher::{Matcher, NoMemoizeBacktrackingRunner, lemma_grows_same};
use crate::parser::Parser;

verus! {

/// Runs `inner` in a recovery pass; in a first pass it matches without consuming input.
/// It never misses: where `inner` misses, it matches without consuming input, and the values
/// bound and the diagnostics recorded by the failed attempt are dropped.
pub struct IfError<I> {
    /// Wrapped matcher.
    pub inner: I,
}

/// Runs `inner` in a recovery pass; in a first pass it misses.
pub struct IfErrorElseFail<I> {
    /// Wrapped matcher.
    pub inner: I,
}

impl<I> IfError<I> {
    /// Wrap `inner`.
    pub fn new(inner: I) -> (r: Self)
        ensures
            r.inner == inner,
    {
        IfError { inner }
    }
}

impl<I> IfErrorElseFail<I> {
    /// Wrap `inner`.
    pub fn new(inner: I) -> (r: Self)
        ensures
            r.inner == inner,
    {
        IfErrorElseFail { inner }
    }
}

/// See [`IfError`].
pub fn if_error<I>(inner: I) -> (r: IfError<I>)
    ensures
        r.inner == inner,
{
    IfError::new(inner)
}

/// See [`IfErrorElseFail`].
pub fn if_error_else_fail<I>(inner: I) -> (r: IfErrorElseFail<I>)
    ensures
        r.inner == inner,
{
    IfErrorElseFail::new(inner)
}

impl<Inp: Input, V, I: Matcher<Inp, V>> Matcher<Inp, V> for IfError<I> {
    open spec fn wf(&self) -> bool {
        self.inner.wf()
    }

    open spec fn spec_label(&self) -> Option<Seq<char>> {
        self.inner.spec_label()
    }

    open spec fn spec_match(&self, inp: Inp, rec: bool, s: State<V>) -> (Outcome<bool>, State<V>) {
        if !rec {
            (Outcome::Done(true), s)
        } else {
            let (o, s2) = self.inner.spec_match(inp, rec, s);
            match o {
                Outcome::Done(false) => (
                    Outcome::Done(true),
                    State {
                        pos: s.pos,
                        binds: s2.binds.take(s.binds.len() as int),
                        errors: s2.errors.take(s.errors.len() as int),
                        ..s2
                    },
                ),
                _ => (o, s2),
            }
        }
    }

    proof fn lemma_match_bounds(&self, inp: Inp, rec: bool, s: State<V>) {
        lemma_grows_same(s, s);
        self.inner.lemma_match_bounds(inp, rec, s);
        let (o, s2) = self.inner.spec_match(inp, rec, s);
        assert(s2.binds.take(s.binds.len() as int).take(s.binds.len() as int) =~= s2.binds.take(
            s.binds.len() as int,
        ));
        assert(s2.errors.take(s.errors.len() as int).take(s.errors.len() as int) =~= s2.errors.take(
            s.errors.len() as int,
        ));
    }

    proof fn lemma_match_handler_blind(&self, inp: Inp, rec: bool, s: State<V>, eh2: HandlerModel) {
        self.inner.lemma_match_handler_blind(inp, rec, s, eh2);
    }

    fn maybe_label(&self) -> (l: Option<String>) {
        self.inner.maybe_label()
    }

    fn match_with_runner<EH: ErrorHandler>(
        &self,
        ctx: &mut ParserContext<V>,
        runner: &mut NoMemoizeBacktrackingRunner<V>,
        eh: &mut EH,
        input: &mut InputStream<Inp>,
    ) -> (r: Result<bool, MatcherRunError>) {
        if !ctx.is_in_error_recovery {
            return Ok(true);
        }
        proof {
            self.inner.lemma_match_bounds(
                input.input,
                ctx.is_in_error_recovery,
                exec_state(ctx, runner.stack@, eh, input),
            );
        }
        let old_pos = input.get_pos();
        let old_err_len = ctx.error_stack.len();
        let old_bind_len = runner.stack.len();
        match self.inner.match_with_runner(ctx, runner, eh, input) {
            Ok(false) => {
                runner.stack.truncate(old_bind_len);
                input.set_pos(old_pos);
                let ghost before = ctx.error_stack@;
                ctx.error_stack.truncate(old_err_len);
                proof {
                    assert(error_views(ctx.error_stack@) =~= error_views(before).take(
                        old_err_len as int,
                    ));
                }
                Ok(true)
            },
            other => other,
        }
    }
}

impl<Inp: Input, V, I: Matcher<Inp, V>> Matcher<Inp, V> for IfErrorElseFail<I> {
    open spec fn wf(&self) -> bool {
        self.inner.wf()
    }

    open spec fn spec_label(&self) -> Option<Seq<char>> {
        self.inner.spec_label()
    }

    open spec fn spec_match(&self, inp: Inp, rec: bool, s: State<V>) -> (Outcome<bool>, State<V>) {
        if !rec {
            (Outcome::Done(false), s)
        } else {
            self.inner.spec_match(inp, rec, s)
        }
    }

    proof fn lemma_match_bounds(&self, inp: Inp, rec: bool, s: State<V>) {
        lemma_grows_same(s, s);
        self.inner.lemma_match_bounds(inp, rec, s);
    }

    proof fn lemma_match_handler_blind(&self, inp: Inp, rec: bool, s: State<V>, eh2: HandlerModel) {
        self.inner.lemma_match_handler_blind(inp, rec, s, eh2);
    }

    fn maybe_label(&self) -> (l: Option<String>) {
        self.inner.maybe_label()
    }

    fn match_with_runner<EH: ErrorHandler>(
        &self,
        ctx: &mut ParserContext<V>,
        runner: &mut NoMemoizeBacktrackingRunner<V>,
        eh: &mut EH,
        input: &mut InputStream<Inp>,
    ) -> (r: Result<bool, MatcherRunError>) {
        if !ctx.is_in_error_recovery {
            return Ok(false);
        }
        self.inner.match_with_runner(ctx, runner, eh, input)
    }
}

impl<Inp: Input, V, I: Parser<Inp, V>> Parser<Inp, V> for IfErrorElseFail<I> {
    type Output = I::Output;

    open spec fn wf(&self) -> bool {
        self.inner.wf()
    }

    open spec fn spec_label(&self) -> Option<Seq<char>> {
        self.inner.spec_label()
    }

    open spec fn spec_parse(&self, inp: Inp, rec: bool, s: State<V>) -> (Outcome<Option<I::Output>>, State<V>) {
        if !rec {
            (Outcome::Done(None), s)
        } else {
            self.inner.spec_parse(inp, rec, s)
        }
    }

    proof fn lemma_parse_bounds(&self, inp: Inp, rec: bool, s: State<V>) {
        lemma_grows_same(s, s);
        self.inner.lemma_parse_bounds(inp, rec, s);
    }

    proof fn lemma_parse_handler_blind(&self, inp: Inp, rec: bool, s: State<V>, eh2: HandlerModel) {
        self.inner.lemma_parse_handler_blind(inp, rec, s, eh2);
    }

    fn maybe_label(&self) -> (l: Option<String>) {
        self.inner.maybe_label()
    }

    fn parse<EH: ErrorHandler>(
        &self,
        ctx: &mut ParserContext<V>,
        eh: &mut EH,
        input: &mut InputStream<Inp>,
    ) -> (r: Result<Option<I::Output>, MatcherRunError>) {
        if !ctx.is_in_error_recovery {
            return Ok(None);
        }
        self.inner.parse(ctx, eh, input)
    }
}

/// An [`IfError`] never misses: in a first pass it matches at once, and in a recovery pass a
/// miss of the wrapped matcher becomes a match that consumes nothing.
pub proof fn lemma_if_error_never_misses<Inp: Input, V, I: Matcher<Inp, V>>(
    m: IfError<I>,
    inp: Inp,
    rec: bool,
    s: State<V>,
)
    ensures
        m.spec_match(inp, rec, s).0 != Outcome::<bool>::Done(false),
        m.spec_match(inp, rec, s).0 == Outcome::<bool>::Done(true) && (!rec
            || m.inner.spec_match(inp, rec, s).0 == Outcome::<bool>::Done(false))
            ==> m.spec_match(inp, rec, s).1.pos == s.pos,
{
}

} // verus!
