//! Sequences: a tuple of matchers matches its elements one after another.
use vstd::prelude::*;
use crate::error_handler::HandlerModel;
use crate::context::{Outcome, ParserContext, State, same_but_handler};
use crate::error::MatcherRunError;
use crate::error_handler::ErrorHandler;
use crate::input::{Input, InputStream};
use crate::matcher::{
    Matcher, NoMemoizeBacktrackingRunner, lemma_grows_trans, lemma_run_bounds, lemma_run_handler_blind,
    run_match, spec_run,
};

verus! {

/// `a` then `b`: the second runs from where the first stopped, only if the first matched.
pub open spec fn spec_then<Inp: Input, V, A: Matcher<Inp, V>, B: Matcher<Inp, V>>(
    a: A,
    b: B,
    inp: Inp,
    rec: bool,
    s: State<V>,
) -> (Outcome<bool>, State<V>) {
    let (o1, s1) = spec_run::<Inp, V, A>(a, inp, rec, s);
    match o1 {
        Outcome::Done(true) => spec_run::<Inp, V, B>(b, inp, rec, s1),
        _ => (o1, s1),
    }
}

/// Bounds of [`spec_then`].
pub proof fn lemma_then_bounds<Inp: Input, V, A: Matcher<Inp, V>, B: Matcher<Inp, V>>(
    a: A,
    b: B,
    inp: Inp,
    rec: bool,
    s: State<V>,
)
    requires
        a.wf(),
        b.wf(),
        s.valid(inp.spec_len()),
    ensures
        ({
            let (o, s2) = spec_then::<Inp, V, A, B>(a, b, inp, rec, s);
            &&& s2.valid(inp.spec_len())
            &&& o == Outcome::Done(true) ==> s.pos <= s2.pos
            &&& super::grows(s, s2)
        }),
{
    lemma_run_bounds::<Inp, V, A>(a, inp, rec, s);
    let (o1, s1) = spec_run::<Inp, V, A>(a, inp, rec, s);
    if o1 == Outcome::<bool>::Done(true) {
        lemma_run_bounds::<Inp, V, B>(b, inp, rec, s1);
        lemma_grows_trans(s, s1, spec_run::<Inp, V, B>(b, inp, rec, s1).1);
    }
}

/// [`spec_then`] depends on the error handler's state only through whether it collects
/// errors (see [`Matcher::lemma_match_handler_blind`]).
pub proof fn lemma_then_handler_blind<Inp: Input, V, A: Matcher<Inp, V>, B: Matcher<Inp, V>>(
    a: A,
    b: B,
    inp: Inp,
    rec: bool,
    s: State<V>,
    eh2: HandlerModel,
)
    requires
        a.wf(),
        b.wf(),
        s.valid(inp.spec_len()),
        eh2.is_real() == s.eh.is_real(),
    ensures
        ({
            let (o1, s1) = spec_then::<Inp, V, A, B>(a, b, inp, rec, s);
            let (o2, s2) = spec_then::<Inp, V, A, B>(a, b, inp, rec, s.with_eh(eh2));
            &&& !(o1 is Stuck) ==> s1.eh.is_real() == s.eh.is_real()
            &&& !(o1 is Stuck) && !(o2 is Stuck) ==> o1 == o2 && same_but_handler(s1, s2)
        }),
{
    lemma_run_bounds::<Inp, V, A>(a, inp, rec, s);
    lemma_run_handler_blind::<Inp, V, A>(a, inp, rec, s, eh2);
    lemma_run_handler_blind::<Inp, V, A>(a, inp, rec, s.with_eh(eh2), s.eh);
    let (o1, s1) = spec_run::<Inp, V, A>(a, inp, rec, s);
    let (o1b, s1b) = spec_run::<Inp, V, A>(a, inp, rec, s.with_eh(eh2));
    if o1 == Outcome::<bool>::Done(true) {
        let e = if o1b == Outcome::<bool>::Done(true) { s1b.eh } else { s1.eh };
        if o1b == Outcome::<bool>::Done(true) {
            assert(s1b == s1.with_eh(s1b.eh));
        }
        lemma_run_handler_blind::<Inp, V, B>(b, inp, rec, s1, e);
    }
}

impl<Inp: Input, V, A: Matcher<Inp, V>, B: Matcher<Inp, V>> Matcher<Inp, V> for (A, B) {
    open spec fn wf(&self) -> bool {
        self.0.wf() && self.1.wf()
    }

    open spec fn spec_label(&self) -> Option<Seq<char>> {
        None
    }

    open spec fn spec_match(&self, inp: Inp, rec: bool, s: State<V>) -> (Outcome<bool>, State<V>) {
        spec_then::<Inp, V, A, B>(self.0, self.1, inp, rec, s)
    }

    proof fn lemma_match_bounds(&self, inp: Inp, rec: bool, s: State<V>) {
        lemma_then_bounds::<Inp, V, A, B>(self.0, self.1, inp, rec, s);
    }

    proof fn lemma_match_handler_blind(&self, inp: Inp, rec: bool, s: State<V>, eh2: HandlerModel) {
        lemma_then_handler_blind::<Inp, V, A, B>(self.0, self.1, inp, rec, s, eh2);
    }

    fn maybe_label(&self) -> (l: Option<String>) {
        None
    }

    fn match_with_runner<EH: ErrorHandler>(
        &self,
        ctx: &mut ParserContext<V>,
        runner: &mut NoMemoizeBacktrackingRunner<V>,
        eh: &mut EH,
        input: &mut InputStream<Inp>,
    ) -> (r: Result<bool, MatcherRunError>) {
        proof {
            lemma_run_bounds::<Inp, V, A>(
                self.0,
                input.input,
                ctx.is_in_error_recovery,
                crate::context::exec_state(ctx, runner.stack@, eh, input),
            );
        }
        match run_match(&self.0, ctx, runner, eh, input) {
            Ok(true) => run_match(&self.1, ctx, runner, eh, input),
            other => other,
        }
    }
}

impl<Inp: Input, V, A: Matcher<Inp, V>, B: Matcher<Inp, V>, C: Matcher<Inp, V>> Matcher<Inp, V> for (
    A,
    B,
    C,
) {
    open spec fn wf(&self) -> bool {
        self.0.wf() && self.1.wf() && self.2.wf()
    }

    open spec fn spec_label(&self) -> Option<Seq<char>> {
        None
    }

    open spec fn spec_match(&self, inp: Inp, rec: bool, s: State<V>) -> (Outcome<bool>, State<V>) {
        let (o1, s1) = spec_run::<Inp, V, A>(self.0, inp, rec, s);
        match o1 {
            Outcome::Done(true) => spec_then::<Inp, V, B, C>(self.1, self.2, inp, rec, s1),
            _ => (o1, s1),
        }
    }

    proof fn lemma_match_bounds(&self, inp: Inp, rec: bool, s: State<V>) {
        lemma_run_bounds::<Inp, V, A>(self.0, inp, rec, s);
        let (o1, s1) = spec_run::<Inp, V, A>(self.0, inp, rec, s);
        if o1 == Outcome::<bool>::Done(true) {
            lemma_then_bounds::<Inp, V, B, C>(self.1, self.2, inp, rec, s1);
            lemma_grows_trans(s, s1, spec_then::<Inp, V, B, C>(self.1, self.2, inp, rec, s1).1);
        }
    }

    proof fn lemma_match_handler_blind(&self, inp: Inp, rec: bool, s: State<V>, eh2: HandlerModel) {
        lemma_run_bounds::<Inp, V, A>(self.0, inp, rec, s);
        lemma_run_handler_blind::<Inp, V, A>(self.0, inp, rec, s, eh2);
        lemma_run_handler_blind::<Inp, V, A>(self.0, inp, rec, s.with_eh(eh2), s.eh);
        let (o1, s1) = spec_run::<Inp, V, A>(self.0, inp, rec, s);
        let (o1b, s1b) = spec_run::<Inp, V, A>(self.0, inp, rec, s.with_eh(eh2));
        if o1 == Outcome::<bool>::Done(true) {
            let e = if o1b == Outcome::<bool>::Done(true) { s1b.eh } else { s1.eh };
            if o1b == Outcome::<bool>::Done(true) {
                assert(s1b == s1.with_eh(s1b.eh));
            }
            lemma_then_handler_blind::<Inp, V, B, C>(self.1, self.2, inp, rec, s1, e);
        }
    }

    fn maybe_label(&self) -> (l: Option<String>) {
        None
    }

    fn match_with_runner<EH: ErrorHandler>(
        &self,
        ctx: &mut ParserContext<V>,
        runner: &mut NoMemoizeBacktrackingRunner<V>,
        eh: &mut EH,
        input: &mut InputStream<Inp>,
    ) -> (r: Result<bool, MatcherRunError>) {
        proof {
            lemma_run_bounds::<Inp, V, A>(
                self.0,
                input.input,
                ctx.is_in_error_recovery,
                crate::context::exec_state(ctx, runner.stack@, eh, input),
            );
        }
        match run_match(&self.0, ctx, runner, eh, input) {
            Ok(true) => {},
            other => return other,
        }
        proof {
            lemma_run_bounds::<Inp, V, B>(
                self.1,
                input.input,
                ctx.is_in_error_recovery,
                crate::context::exec_state(ctx, runner.stack@, eh, input),
            );
        }
        match run_match(&self.1, ctx, runner, eh, input) {
            Ok(true) => run_match(&self.2, ctx, runner, eh, input),
            other => other,
        }
    }
}

impl<Inp: Input, V, A: Matcher<Inp, V>> Matcher<Inp, V> for (A,) {
    open spec fn wf(&self) -> bool {
        self.0.wf()
    }

    open spec fn spec_label(&self) -> Option<Seq<char>> {
        None
    }

    open spec fn spec_match(&self, inp: Inp, rec: bool, s: State<V>) -> (Outcome<bool>, State<V>) {
        spec_run::<Inp, V, A>(self.0, inp, rec, s)
    }

    proof fn lemma_match_bounds(&self, inp: Inp, rec: bool, s: State<V>) {
        lemma_run_bounds::<Inp, V, A>(self.0, inp, rec, s);
    }

    proof fn lemma_match_handler_blind(&self, inp: Inp, rec: bool, s: State<V>, eh2: HandlerModel) {
        lemma_run_handler_blind::<Inp, V, A>(self.0, inp, rec, s, eh2);
    }

    fn maybe_label(&self) -> (l: Option<String>) {
        None
    }

    fn match_with_runner<EH: ErrorHandler>(
        &self,
        ctx: &mut ParserContext<V>,
        runner: &mut NoMemoizeBacktrackingRunner<V>,
        eh: &mut EH,
        input: &mut InputStream<Inp>,
    ) -> (r: Result<bool, MatcherRunError>) {
        run_match(&self.0, ctx, runner, eh, input)
    }
}

impl<
    Inp: Input,
    V,
    A: Matcher<Inp, V>,
    B: Matcher<Inp, V>,
    C: Matcher<Inp, V>,
    D: Matcher<Inp, V>,
> Matcher<Inp, V> for (A, B, C, D) {
    open spec fn wf(&self) -> bool {
        self.0.wf() && self.1.wf() && self.2.wf() && self.3.wf()
    }

    open spec fn spec_label(&self) -> Option<Seq<char>> {
        None
    }

    open spec fn spec_match(&self, inp: Inp, rec: bool, s: State<V>) -> (Outcome<bool>, State<V>) {
        let (o1, s1) = spec_run::<Inp, V, A>(self.0, inp, rec, s);
        match o1 {
            Outcome::Done(true) => (self.1, self.2, self.3).spec_match(inp, rec, s1),
            _ => (o1, s1),
        }
    }

    proof fn lemma_match_bounds(&self, inp: Inp, rec: bool, s: State<V>) {
        lemma_run_bounds::<Inp, V, A>(self.0, inp, rec, s);
        let (o1, s1) = spec_run::<Inp, V, A>(self.0, inp, rec, s);
        if o1 == Outcome::<bool>::Done(true) {
            (self.1, self.2, self.3).lemma_match_bounds(inp, rec, s1);
            lemma_grows_trans(s, s1, (self.1, self.2, self.3).spec_match(inp, rec, s1).1);
        }
    }

    proof fn lemma_match_handler_blind(&self, inp: Inp, rec: bool, s: State<V>, eh2: HandlerModel) {
        lemma_run_bounds::<Inp, V, A>(self.0, inp, rec, s);
        lemma_run_handler_blind::<Inp, V, A>(self.0, inp, rec, s, eh2);
        lemma_run_handler_blind::<Inp, V, A>(self.0, inp, rec, s.with_eh(eh2), s.eh);
        let (o1, s1) = spec_run::<Inp, V, A>(self.0, inp, rec, s);
        let (o1b, s1b) = spec_run::<Inp, V, A>(self.0, inp, rec, s.with_eh(eh2));
        if o1 == Outcome::<bool>::Done(true) {
            let e = if o1b == Outcome::<bool>::Done(true) { s1b.eh } else { s1.eh };
            if o1b == Outcome::<bool>::Done(true) {
                assert(s1b == s1.with_eh(s1b.eh));
            }
            (self.1, self.2, self.3).lemma_match_handler_blind(inp, rec, s1, e);
        }
    }

    fn maybe_label(&self) -> (l: Option<String>) {
        None
    }

    fn match_with_runner<EH: ErrorHandler>(
        &self,
        ctx: &mut ParserContext<V>,
        runner: &mut NoMemoizeBacktrackingRunner<V>,
        eh: &mut EH,
        input: &mut InputStream<Inp>,
    ) -> (r: Result<bool, MatcherRunError>) {
        proof {
            lemma_run_bounds::<Inp, V, A>(
                self.0,
                input.input,
                ctx.is_in_error_recovery,
                crate::context::exec_state(ctx, runner.stack@, eh, input),
            );
        }
        match run_match(&self.0, ctx, runner, eh, input) {
            Ok(true) => {},
            other => return other,
        }
        proof {
            lemma_run_bounds::<Inp, V, B>(
                self.1,
                input.input,
                ctx.is_in_error_recovery,
                crate::context::exec_state(ctx, runner.stack@, eh, input),
            );
        }
        match run_match(&self.1, ctx, runner, eh, input) {
            Ok(true) => {},
            other => return other,
        }
        proof {
            lemma_run_bounds::<Inp, V, C>(
                self.2,
                input.input,
                ctx.is_in_error_recovery,
                crate::context::exec_state(ctx, runner.stack@, eh, input),
            );
        }
        match run_match(&self.2, ctx, runner, eh, input) {
            Ok(true) => run_match(&self.3, ctx, runner, eh, input),
            other => other,
        }
    }
}

impl<
    Inp: Input,
    V,
    A: Matcher<Inp, V>,
    B: Matcher<Inp, V>,
    C: Matcher<Inp, V>,
    D: Matcher<Inp, V>,
    E: Matcher<Inp, V>,
> Matcher<Inp, V> for (A, B, C, D, E) {
    open spec fn wf(&self) -> bool {
        self.0.wf() && self.1.wf() && self.2.wf() && self.3.wf() && self.4.wf()
    }

    open spec fn spec_label(&self) -> Option<Seq<char>> {
        None
    }

    open spec fn spec_match(&self, inp: Inp, rec: bool, s: State<V>) -> (Outcome<bool>, State<V>) {
        let (o1, s1) = spec_run::<Inp, V, A>(self.0, inp, rec, s);
        match o1 {
            Outcome::Done(true) => (self.1, self.2, self.3, self.4).spec_match(inp, rec, s1),
            _ => (o1, s1),
        }
    }

    proof fn lemma_match_bounds(&self, inp: Inp, rec: bool, s: State<V>) {
        lemma_run_bounds::<Inp, V, A>(self.0, inp, rec, s);
        let (o1, s1) = spec_run::<Inp, V, A>(self.0, inp, rec, s);
        if o1 == Outcome::<bool>::Done(true) {
            (self.1, self.2, self.3, self.4).lemma_match_bounds(inp, rec, s1);
            lemma_grows_trans(s, s1, (self.1, self.2, self.3, self.4).spec_match(inp, rec, s1).1);
        }
    }

    proof fn lemma_match_handler_blind(&self, inp: Inp, rec: bool, s: State<V>, eh2: HandlerModel) {
        lemma_run_bounds::<Inp, V, A>(self.0, inp, rec, s);
        lemma_run_handler_blind::<Inp, V, A>(self.0, inp, rec, s, eh2);
        lemma_run_handler_blind::<Inp, V, A>(self.0, inp, rec, s.with_eh(eh2), s.eh);
        let (o1, s1) = spec_run::<Inp, V, A>(self.0, inp, rec, s);
        let (o1b, s1b) = spec_run::<Inp, V, A>(self.0, inp, rec, s.with_eh(eh2));
        if o1 == Outcome::<bool>::Done(true) {
            let e = if o1b == Outcome::<bool>::Done(true) { s1b.eh } else { s1.eh };
            if o1b == Outcome::<bool>::Done(true) {
                assert(s1b == s1.with_eh(s1b.eh));
            }
            (self.1, self.2, self.3, self.4).lemma_match_handler_blind(inp, rec, s1, e);
        }
    }

    fn maybe_label(&self) -> (l: Option<String>) {
        None
    }

    #[verifier::rlimit(50)]
    fn match_with_runner<EH: ErrorHandler>(
        &self,
        ctx: &mut ParserContext<V>,
        runner: &mut NoMemoizeBacktrackingRunner<V>,
        eh: &mut EH,
        input: &mut InputStream<Inp>,
    ) -> (r: Result<bool, MatcherRunError>) {
        proof {
            lemma_run_bounds::<Inp, V, A>(
                self.0,
                input.input,
                ctx.is_in_error_recovery,
                crate::context::exec_state(ctx, runner.stack@, eh, input),
            );
        }
        match run_match(&self.0, ctx, runner, eh, input) {
            Ok(true) => {},
            other => return other,
        }
        proof {
            lemma_run_bounds::<Inp, V, B>(
                self.1,
                input.input,
                ctx.is_in_error_recovery,
                crate::context::exec_state(ctx, runner.stack@, eh, input),
            );
        }
        match run_match(&self.1, ctx, runner, eh, input) {
            Ok(true) => {},
            other => return other,
        }
        proof {
            lemma_run_bounds::<Inp, V, C>(
                self.2,
                input.input,
                ctx.is_in_error_recovery,
                crate::context::exec_state(ctx, runner.stack@, eh, input),
            );
        }
        match run_match(&self.2, ctx, runner, eh, input) {
            Ok(true) => {},
            other => return other,
        }
        proof {
            lemma_run_bounds::<Inp, V, D>(
                self.3,
                input.input,
                ctx.is_in_error_recovery,
                crate::context::exec_state(ctx, runner.stack@, eh, input),
            );
        }
        match run_match(&self.3, ctx, runner, eh, input) {
            Ok(true) => run_match(&self.4, ctx, runner, eh, input),
            other => other,
        }
    }
}

impl<
    Inp: Input,
    V,
    A: Matcher<Inp, V>,
    B: Matcher<Inp, V>,
    C: Matcher<Inp, V>,
    D: Matcher<Inp, V>,
    E: Matcher<Inp, V>,
    F: Matcher<Inp, V>,
> Matcher<Inp, V> for (A, B, C, D, E, F) {
    open spec fn wf(&self) -> bool {
        self.0.wf() && self.1.wf() && self.2.wf() && self.3.wf() && self.4.wf() && self.5.wf()
    }

    open spec fn spec_label(&self) -> Option<Seq<char>> {
        None
    }

    open spec fn spec_match(&self, inp: Inp, rec: bool, s: State<V>) -> (Outcome<bool>, State<V>) {
        let (o1, s1) = spec_run::<Inp, V, A>(self.0, inp, rec, s);
        match o1 {
            Outcome::Done(true) => (self.1, self.2, self.3, self.4, self.5).spec_match(inp, rec, s1),
            _ => (o1, s1),
        }
    }

    proof fn lemma_match_bounds(&self, inp: Inp, rec: bool, s: State<V>) {
        lemma_run_bounds::<Inp, V, A>(self.0, inp, rec, s);
        let (o1, s1) = spec_run::<Inp, V, A>(self.0, inp, rec, s);
        if o1 == Outcome::<bool>::Done(true) {
            (self.1, self.2, self.3, self.4, self.5).lemma_match_bounds(inp, rec, s1);
            lemma_grows_trans(s, s1, (self.1, self.2, self.3, self.4, self.5).spec_match(inp, rec, s1).1);
        }
    }

    proof fn lemma_match_handler_blind(&self, inp: Inp, rec: bool, s: State<V>, eh2: HandlerModel) {
        lemma_run_bounds::<Inp, V, A>(self.0, inp, rec, s);
        lemma_run_handler_blind::<Inp, V, A>(self.0, inp, rec, s, eh2);
        lemma_run_handler_blind::<Inp, V, A>(self.0, inp, rec, s.with_eh(eh2), s.eh);
        let (o1, s1) = spec_run::<Inp, V, A>(self.0, inp, rec, s);
        let (o1b, s1b) = spec_run::<Inp, V, A>(self.0, inp, rec, s.with_eh(eh2));
        if o1 == Outcome::<bool>::Done(true) {
            let e = if o1b == Outcome::<bool>::Done(true) { s1b.eh } else { s1.eh };
            if o1b == Outcome::<bool>::Done(true) {
                assert(s1b == s1.with_eh(s1b.eh));
            }
            (self.1, self.2, self.3, self.4, self.5).lemma_match_handler_blind(inp, rec, s1, e);
        }
    }

    fn maybe_label(&self) -> (l: Option<String>) {
        None
    }

    #[verifier::rlimit(50)]
    fn match_with_runner<EH: ErrorHandler>(
        &self,
        ctx: &mut ParserContext<V>,
        runner: &mut NoMemoizeBacktrackingRunner<V>,
        eh: &mut EH,
        input: &mut InputStream<Inp>,
    ) -> (r: Result<bool, MatcherRunError>) {
        proof {
            lemma_run_bounds::<Inp, V, A>(
                self.0,
                input.input,
                ctx.is_in_error_recovery,
                crate::context::exec_state(ctx, runner.stack@, eh, input),
            );
        }
        match run_match(&self.0, ctx, runner, eh, input) {
            Ok(true) => {},
            other => return other,
        }
        proof {
            lemma_run_bounds::<Inp, V, B>(
                self.1,
                input.input,
                ctx.is_in_error_recovery,
                crate::context::exec_state(ctx, runner.stack@, eh, input),
            );
        }
        match run_match(&self.1, ctx, runner, eh, input) {
            Ok(true) => {},
            other => return other,
        }
        proof {
            lemma_run_bounds::<Inp, V, C>(
                self.2,
                input.input,
                ctx.is_in_error_recovery,
                crate::context::exec_state(ctx, runner.stack@, eh, input),
            );
        }
        match run_match(&self.2, ctx, runner, eh, input) {
            Ok(true) => {},
            other => return other,
        }
        proof {
            lemma_run_bounds::<Inp, V, D>(
                self.3,
                input.input,
                ctx.is_in_error_recovery,
                crate::context::exec_state(ctx, runner.stack@, eh, input),
            );
        }
        match run_match(&self.3, ctx, runner, eh, input) {
            Ok(true) => {},
            other => return other,
        }
        proof {
            lemma_run_bounds::<Inp, V, E>(
                self.4,
                input.input,
                ctx.is_in_error_recovery,
                crate::context::exec_state(ctx, runner.stack@, eh, input),
            );
        }
        match run_match(&self.4, ctx, runner, eh, input) {
            Ok(true) => run_match(&self.5, ctx, runner, eh, input),
            other => other,
        }
    }
}

impl<
    Inp: Input,
    V,
    A: Matcher<Inp, V>,
    B: Matcher<Inp, V>,
    C: Matcher<Inp, V>,
    D: Matcher<Inp, V>,
    E: Matcher<Inp, V>,
    F: Matcher<Inp, V>,
    G: Matcher<Inp, V>,
> Matcher<Inp, V> for (A, B, C, D, E, F, G) {
    open spec fn wf(&self) -> bool {
        self.0.wf() && self.1.wf() && self.2.wf() && self.3.wf() && self.4.wf() && self.5.wf() && self.6.wf()
    }

    open spec fn spec_label(&self) -> Option<Seq<char>> {
        None
    }

    open spec fn spec_match(&self, inp: Inp, rec: bool, s: State<V>) -> (Outcome<bool>, State<V>) {
        let (o1, s1) = spec_run::<Inp, V, A>(self.0, inp, rec, s);
        match o1 {
            Outcome::Done(true) => (self.1, self.2, self.3, self.4, self.5, self.6).spec_match(inp, rec, s1),
            _ => (o1, s1),
        }
    }

    proof fn lemma_match_bounds(&self, inp: Inp, rec: bool, s: State<V>) {
        lemma_run_bounds::<Inp, V, A>(self.0, inp, rec, s);
        let (o1, s1) = spec_run::<Inp, V, A>(self.0, inp, rec, s);
        if o1 == Outcome::<bool>::Done(true) {
            (self.1, self.2, self.3, self.4, self.5, self.6).lemma_match_bounds(inp, rec, s1);
            lemma_grows_trans(s, s1, (self.1, self.2, self.3, self.4, self.5, self.6).spec_match(inp, rec, s1).1);
        }
    }

    proof fn lemma_match_handler_blind(&self, inp: Inp, rec: bool, s: State<V>, eh2: HandlerModel) {
        lemma_run_bounds::<Inp, V, A>(self.0, inp, rec, s);
        lemma_run_handler_blind::<Inp, V, A>(self.0, inp, rec, s, eh2);
        lemma_run_handler_blind::<Inp, V, A>(self.0, inp, rec, s.with_eh(eh2), s.eh);
        let (o1, s1) = spec_run::<Inp, V, A>(self.0, inp, rec, s);
        let (o1b, s1b) = spec_run::<Inp, V, A>(self.0, inp, rec, s.with_eh(eh2));
        if o1 == Outcome::<bool>::Done(true) {
            let e = if o1b == Outcome::<bool>::Done(true) { s1b.eh } else { s1.eh };
            if o1b == Outcome::<bool>::Done(true) {
                assert(s1b == s1.with_eh(s1b.eh));
            }
            (self.1, self.2, self.3, self.4, self.5, self.6).lemma_match_handler_blind(inp, rec, s1, e);
        }
    }

    fn maybe_label(&self) -> (l: Option<String>) {
        None
    }

    #[verifier::rlimit(50)]
    fn match_with_runner<EH: ErrorHandler>(
        &self,
        ctx: &mut ParserContext<V>,
        runner: &mut NoMemoizeBacktrackingRunner<V>,
        eh: &mut EH,
        input: &mut InputStream<Inp>,
    ) -> (r: Result<bool, MatcherRunError>) {
        proof {
            lemma_run_bounds::<Inp, V, A>(
                self.0,
                input.input,
                ctx.is_in_error_recovery,
                crate::context::exec_state(ctx, runner.stack@, eh, input),
            );
        }
        match run_match(&self.0, ctx, runner, eh, input) {
            Ok(true) => {},
            other => return other,
        }
        proof {
            lemma_run_bounds::<Inp, V, B>(
                self.1,
                input.input,
                ctx.is_in_error_recovery,
                crate::context::exec_state(ctx, runner.stack@, eh, input),
            );
        }
        match run_match(&self.1, ctx, runner, eh, input) {
            Ok(true) => {},
            other => return other,
        }
        proof {
            lemma_run_bounds::<Inp, V, C>(
                self.2,
                input.input,
                ctx.is_in_error_recovery,
                crate::context::exec_state(ctx, runner.stack@, eh, input),
            );
        }
        match run_match(&self.2, ctx, runner, eh, input) {
            Ok(true) => {},
            other => return other,
        }
        proof {
            lemma_run_bounds::<Inp, V, D>(
                self.3,
                input.input,
                ctx.is_in_error_recovery,
                crate::context::exec_state(ctx, runner.stack@, eh, input),
            );
        }
        match run_match(&self.3, ctx, runner, eh, input) {
            Ok(true) => {},
            other => return other,
        }
        proof {
            lemma_run_bounds::<Inp, V, E>(
                self.4,
                input.input,
                ctx.is_in_error_recovery,
                crate::context::exec_state(ctx, runner.stack@, eh, input),
            );
        }
        match run_match(&self.4, ctx, runner, eh, input) {
            Ok(true) => {},
            other => return other,
        }
        proof {
            lemma_run_bounds::<Inp, V, F>(
                self.5,
                input.input,
                ctx.is_in_error_recovery,
                crate::context::exec_state(ctx, runner.stack@, eh, input),
            );
        }
        match run_match(&self.5, ctx, runner, eh, input) {
            Ok(true) => run_match(&self.6, ctx, runner, eh, input),
            other => other,
        }
    }
}

impl<
    Inp: Input,
    V,
    A: Matcher<Inp, V>,
    B: Matcher<Inp, V>,
    C: Matcher<Inp, V>,
    D: Matcher<Inp, V>,
    E: Matcher<Inp, V>,
    F: Matcher<Inp, V>,
    G: Matcher<Inp, V>,
    H: Matcher<Inp, V>,
> Matcher<Inp, V> for (A, B, C, D, E, F, G, H) {
    open spec fn wf(&self) -> bool {
        self.0.wf() && self.1.wf() && self.2.wf() && self.3.wf() && self.4.wf() && self.5.wf() && self.6.wf() && self.7.wf()
    }

    open spec fn spec_label(&self) -> Option<Seq<char>> {
        None
    }

    open spec fn spec_match(&self, inp: Inp, rec: bool, s: State<V>) -> (Outcome<bool>, State<V>) {
        let (o1, s1) = spec_run::<Inp, V, A>(self.0, inp, rec, s);
        match o1 {
            Outcome::Done(true) => (self.1, self.2, self.3, self.4, self.5, self.6, self.7).spec_match(inp, rec, s1),
            _ => (o1, s1),
        }
    }

    proof fn lemma_match_bounds(&self, inp: Inp, rec: bool, s: State<V>) {
        lemma_run_bounds::<Inp, V, A>(self.0, inp, rec, s);
        let (o1, s1) = spec_run::<Inp, V, A>(self.0, inp, rec, s);
        if o1 == Outcome::<bool>::Done(true) {
            (self.1, self.2, self.3, self.4, self.5, self.6, self.7).lemma_match_bounds(inp, rec, s1);
            lemma_grows_trans(s, s1, (self.1, self.2, self.3, self.4, self.5, self.6, self.7).spec_match(inp, rec, s1).1);
        }
    }

    proof fn lemma_match_handler_blind(&self, inp: Inp, rec: bool, s: State<V>, eh2: HandlerModel) {
        lemma_run_bounds::<Inp, V, A>(self.0, inp, rec, s);
        lemma_run_handler_blind::<Inp, V, A>(self.0, inp, rec, s, eh2);
        lemma_run_handler_blind::<Inp, V, A>(self.0, inp, rec, s.with_eh(eh2), s.eh);
        let (o1, s1) = spec_run::<Inp, V, A>(self.0, inp, rec, s);
        let (o1b, s1b) = spec_run::<Inp, V, A>(self.0, inp, rec, s.with_eh(eh2));
        if o1 == Outcome::<bool>::Done(true) {
            let e = if o1b == Outcome::<bool>::Done(true) { s1b.eh } else { s1.eh };
            if o1b == Outcome::<bool>::Done(true) {
                assert(s1b == s1.with_eh(s1b.eh));
            }
            (self.1, self.2, self.3, self.4, self.5, self.6, self.7).lemma_match_handler_blind(inp, rec, s1, e);
        }
    }

    fn maybe_label(&self) -> (l: Option<String>) {
        None
    }

    #[verifier::rlimit(50)]
    fn match_with_runner<EH: ErrorHandler>(
        &self,
        ctx: &mut ParserContext<V>,
        runner: &mut NoMemoizeBacktrackingRunner<V>,
        eh: &mut EH,
        input: &mut InputStream<Inp>,
    ) -> (r: Result<bool, MatcherRunError>) {
        proof {
            lemma_run_bounds::<Inp, V, A>(
                self.0,
                input.input,
                ctx.is_in_error_recovery,
                crate::context::exec_state(ctx, runner.stack@, eh, input),
            );
        }
        match run_match(&self.0, ctx, runner, eh, input) {
            Ok(true) => {},
            other => return other,
        }
        proof {
            lemma_run_bounds::<Inp, V, B>(
                self.1,
                input.input,
                ctx.is_in_error_recovery,
                crate::context::exec_state(ctx, runner.stack@, eh, input),
            );
        }
        match run_match(&self.1, ctx, runner, eh, input) {
            Ok(true) => {},
            other => return other,
        }
        proof {
            lemma_run_bounds::<Inp, V, C>(
                self.2,
                input.input,
                ctx.is_in_error_recovery,
                crate::context::exec_state(ctx, runner.stack@, eh, input),
            );
        }
        match run_match(&self.2, ctx, runner, eh, input) {
            Ok(true) => {},
            other => return other,
        }
        proof {
            lemma_run_bounds::<Inp, V, D>(
                self.3,
                input.input,
                ctx.is_in_error_recovery,
                crate::context::exec_state(ctx, runner.stack@, eh, input),
            );
        }
        match run_match(&self.3, ctx, runner, eh, input) {
            Ok(true) => {},
            other => return other,
        }
        proof {
            lemma_run_bounds::<Inp, V, E>(
                self.4,
                input.input,
                ctx.is_in_error_recovery,
                crate::context::exec_state(ctx, runner.stack@, eh, input),
            );
        }
        match run_match(&self.4, ctx, runner, eh, input) {
            Ok(true) => {},
            other => return other,
        }
        proof {
            lemma_run_bounds::<Inp, V, F>(
                self.5,
                input.input,
                ctx.is_in_error_recovery,
                crate::context::exec_state(ctx, runner.stack@, eh, input),
            );
        }
        match run_match(&self.5, ctx, runner, eh, input) {
            Ok(true) => {},
            other => return other,
        }
        proof {
            lemma_run_bounds::<Inp, V, G>(
                self.6,
                input.input,
                ctx.is_in_error_recovery,
                crate::context::exec_state(ctx, runner.stack@, eh, input),
            );
        }
        match run_match(&self.6, ctx, runner, eh, input) {
            Ok(true) => run_match(&self.7, ctx, runner, eh, input),
            other => other,
        }
    }
}

impl<
    Inp: Input,
    V,
    A: Matcher<Inp, V>,
    B: Matcher<Inp, V>,
    C: Matcher<Inp, V>,
    D: Matcher<Inp, V>,
    E: Matcher<Inp, V>,
    F: Matcher<Inp, V>,
    G: Matcher<Inp, V>,
    H: Matcher<Inp, V>,
    I: Matcher<Inp, V>,
> Matcher<Inp, V> for (A, B, C, D, E, F, G, H, I) {
    open spec fn wf(&self) -> bool {
        self.0.wf() && self.1.wf() && self.2.wf() && self.3.wf() && self.4.wf() && self.5.wf() && self.6.wf() && self.7.wf() && self.8.wf()
    }

    open spec fn spec_label(&self) -> Option<Seq<char>> {
        None
    }

    open spec fn spec_match(&self, inp: Inp, rec: bool, s: State<V>) -> (Outcome<bool>, State<V>) {
        let (o1, s1) = spec_run::<Inp, V, A>(self.0, inp, rec, s);
        match o1 {
            Outcome::Done(true) => (self.1, self.2, self.3, self.4, self.5, self.6, self.7, self.8).spec_match(inp, rec, s1),
            _ => (o1, s1),
        }
    }

    proof fn lemma_match_bounds(&self, inp: Inp, rec: bool, s: State<V>) {
        lemma_run_bounds::<Inp, V, A>(self.0, inp, rec, s);
        let (o1, s1) = spec_run::<Inp, V, A>(self.0, inp, rec, s);
        if o1 == Outcome::<bool>::Done(true) {
            (self.1, self.2, self.3, self.4, self.5, self.6, self.7, self.8).lemma_match_bounds(inp, rec, s1);
            lemma_grows_trans(s, s1, (self.1, self.2, self.3, self.4, self.5, self.6, self.7, self.8).spec_match(inp, rec, s1).1);
        }
    }

    proof fn lemma_match_handler_blind(&self, inp: Inp, rec: bool, s: State<V>, eh2: HandlerModel) {
        lemma_run_bounds::<Inp, V, A>(self.0, inp, rec, s);
        lemma_run_handler_blind::<Inp, V, A>(self.0, inp, rec, s, eh2);
        lemma_run_handler_blind::<Inp, V, A>(self.0, inp, rec, s.with_eh(eh2), s.eh);
        let (o1, s1) = spec_run::<Inp, V, A>(self.0, inp, rec, s);
        let (o1b, s1b) = spec_run::<Inp, V, A>(self.0, inp, rec, s.with_eh(eh2));
        if o1 == Outcome::<bool>::Done(true) {
            let e = if o1b == Outcome::<bool>::Done(true) { s1b.eh } else { s1.eh };
            if o1b == Outcome::<bool>::Done(true) {
                assert(s1b == s1.with_eh(s1b.eh));
            }
            (self.1, self.2, self.3, self.4, self.5, self.6, self.7, self.8).lemma_match_handler_blind(inp, rec, s1, e);
        }
    }

    fn maybe_label(&self) -> (l: Option<String>) {
        None
    }

    #[verifier::rlimit(50)]
    fn match_with_runner<EH: ErrorHandler>(
        &self,
        ctx: &mut ParserContext<V>,
        runner: &mut NoMemoizeBacktrackingRunner<V>,
        eh: &mut EH,
        input: &mut InputStream<Inp>,
    ) -> (r: Result<bool, MatcherRunError>) {
        proof {
            lemma_run_bounds::<Inp, V, A>(
                self.0,
                input.input,
                ctx.is_in_error_recovery,
                crate::context::exec_state(ctx, runner.stack@, eh, input),
            );
        }
        match run_match(&self.0, ctx, runner, eh, input) {
            Ok(true) => {},
            other => return other,
        }
        proof {
            lemma_run_bounds::<Inp, V, B>(
                self.1,
                input.input,
                ctx.is_in_error_recovery,
                crate::context::exec_state(ctx, runner.stack@, eh, input),
            );
        }
        match run_match(&self.1, ctx, runner, eh, input) {
            Ok(true) => {},
            other => return other,
        }
        proof {
            lemma_run_bounds::<Inp, V, C>(
                self.2,
                input.input,
                ctx.is_in_error_recovery,
                crate::context::exec_state(ctx, runner.stack@, eh, input),
            );
        }
        match run_match(&self.2, ctx, runner, eh, input) {
            Ok(true) => {},
            other => return other,
        }
        proof {
            lemma_run_bounds::<Inp, V, D>(
                self.3,
                input.input,
                ctx.is_in_error_recovery,
                crate::context::exec_state(ctx, runner.stack@, eh, input),
            );
        }
        match run_match(&self.3, ctx, runner, eh, input) {
            Ok(true) => {},
            other => return other,
        }
        proof {
            lemma_run_bounds::<Inp, V, E>(
                self.4,
                input.input,
                ctx.is_in_error_recovery,
                crate::context::exec_state(ctx, runner.stack@, eh, input),
            );
        }
        match run_match(&self.4, ctx, runner, eh, input) {
            Ok(true) => {},
            other => return other,
        }
        proof {
            lemma_run_bounds::<Inp, V, F>(
                self.5,
                input.input,
                ctx.is_in_error_recovery,
                crate::context::exec_state(ctx, runner.stack@, eh, input),
            );
        }
        match run_match(&self.5, ctx, runner, eh, input) {
            Ok(true) => {},
            other => return other,
        }
        proof {
            lemma_run_bounds::<Inp, V, G>(
                self.6,
                input.input,
                ctx.is_in_error_recovery,
                crate::context::exec_state(ctx, runner.stack@, eh, input),
            );
        }
        match run_match(&self.6, ctx, runner, eh, input) {
            Ok(true) => {},
            other => return other,
        }
        proof {
            lemma_run_bounds::<Inp, V, H>(
                self.7,
                input.input,
                ctx.is_in_error_recovery,
                crate::context::exec_state(ctx, runner.stack@, eh, input),
            );
        }
        match run_match(&self.7, ctx, runner, eh, input) {
            Ok(true) => run_match(&self.8, ctx, runner, eh, input),
            other => other,
        }
    }
}

impl<
    Inp: Input,
    V,
    A: Matcher<Inp, V>,
    B: Matcher<Inp, V>,
    C: Matcher<Inp, V>,
    D: Matcher<Inp, V>,
    E: Matcher<Inp, V>,
    F: Matcher<Inp, V>,
    G: Matcher<Inp, V>,
    H: Matcher<Inp, V>,
    I: Matcher<Inp, V>,
    J: Matcher<Inp, V>,
> Matcher<Inp, V> for (A, B, C, D, E, F, G, H, I, J) {
    open spec fn wf(&self) -> bool {
        self.0.wf() && self.1.wf() && self.2.wf() && self.3.wf() && self.4.wf() && self.5.wf() && self.6.wf() && self.7.wf() && self.8.wf() && self.9.wf()
    }

    open spec fn spec_label(&self) -> Option<Seq<char>> {
        None
    }

    open spec fn spec_match(&self, inp: Inp, rec: bool, s: State<V>) -> (Outcome<bool>, State<V>) {
        let (o1, s1) = spec_run::<Inp, V, A>(self.0, inp, rec, s);
        match o1 {
            Outcome::Done(true) => (self.1, self.2, self.3, self.4, self.5, self.6, self.7, self.8, self.9).spec_match(inp, rec, s1),
            _ => (o1, s1),
        }
    }

    proof fn lemma_match_bounds(&self, inp: Inp, rec: bool, s: State<V>) {
        lemma_run_bounds::<Inp, V, A>(self.0, inp, rec, s);
        let (o1, s1) = spec_run::<Inp, V, A>(self.0, inp, rec, s);
        if o1 == Outcome::<bool>::Done(true) {
            (self.1, self.2, self.3, self.4, self.5, self.6, self.7, self.8, self.9).lemma_match_bounds(inp, rec, s1);
            lemma_grows_trans(s, s1, (self.1, self.2, self.3, self.4, self.5, self.6, self.7, self.8, self.9).spec_match(inp, rec, s1).1);
        }
    }

    proof fn lemma_match_handler_blind(&self, inp: Inp, rec: bool, s: State<V>, eh2: HandlerModel) {
        lemma_run_bounds::<Inp, V, A>(self.0, inp, rec, s);
        lemma_run_handler_blind::<Inp, V, A>(self.0, inp, rec, s, eh2);
        lemma_run_handler_blind::<Inp, V, A>(self.0, inp, rec, s.with_eh(eh2), s.eh);
        let (o1, s1) = spec_run::<Inp, V, A>(self.0, inp, rec, s);
        let (o1b, s1b) = spec_run::<Inp, V, A>(self.0, inp, rec, s.with_eh(eh2));
        if o1 == Outcome::<bool>::Done(true) {
            let e = if o1b == Outcome::<bool>::Done(true) { s1b.eh } else { s1.eh };
            if o1b == Outcome::<bool>::Done(true) {
                assert(s1b == s1.with_eh(s1b.eh));
            }
            (self.1, self.2, self.3, self.4, self.5, self.6, self.7, self.8, self.9).lemma_match_handler_blind(inp, rec, s1, e);
        }
    }

    fn maybe_label(&self) -> (l: Option<String>) {
        None
    }

    #[verifier::rlimit(50)]
    fn match_with_runner<EH: ErrorHandler>(
        &self,
        ctx: &mut ParserContext<V>,
        runner: &mut NoMemoizeBacktrackingRunner<V>,
        eh: &mut EH,
        input: &mut InputStream<Inp>,
    ) -> (r: Result<bool, MatcherRunError>) {
        proof {
            lemma_run_bounds::<Inp, V, A>(
                self.0,
                input.input,
                ctx.is_in_error_recovery,
                crate::context::exec_state(ctx, runner.stack@, eh, input),
            );
        }
        match run_match(&self.0, ctx, runner, eh, input) {
            Ok(true) => {},
            other => return other,
        }
        proof {
            lemma_run_bounds::<Inp, V, B>(
                self.1,
                input.input,
                ctx.is_in_error_recovery,
                crate::context::exec_state(ctx, runner.stack@, eh, input),
            );
        }
        match run_match(&self.1, ctx, runner, eh, input) {
            Ok(true) => {},
            other => return other,
        }
        proof {
            lemma_run_bounds::<Inp, V, C>(
                self.2,
                input.input,
                ctx.is_in_error_recovery,
                crate::context::exec_state(ctx, runner.stack@, eh, input),
            );
        }
        match run_match(&self.2, ctx, runner, eh, input) {
            Ok(true) => {},
            other => return other,
        }
        proof {
            lemma_run_bounds::<Inp, V, D>(
                self.3,
                input.input,
                ctx.is_in_error_recovery,
                crate::context::exec_state(ctx, runner.stack@, eh, input),
            );
        }
        match run_match(&self.3, ctx, runner, eh, input) {
            Ok(true) => {},
            other => return other,
        }
        proof {
            lemma_run_bounds::<Inp, V, E>(
                self.4,
                input.input,
                ctx.is_in_error_recovery,
                crate::context::exec_state(ctx, runner.stack@, eh, input),
            );
        }
        match run_match(&self.4, ctx, runner, eh, input) {
            Ok(true) => {},
            other => return other,
        }
        proof {
            lemma_run_bounds::<Inp, V, F>(
                self.5,
                input.input,
                ctx.is_in_error_recovery,
                crate::context::exec_state(ctx, runner.stack@, eh, input),
            );
        }
        match run_match(&self.5, ctx, runner, eh, input) {
            Ok(true) => {},
            other => return other,
        }
        proof {
            lemma_run_bounds::<Inp, V, G>(
                self.6,
                input.input,
                ctx.is_in_error_recovery,
                crate::context::exec_state(ctx, runner.stack@, eh, input),
            );
        }
        match run_match(&self.6, ctx, runner, eh, input) {
            Ok(true) => {},
            other => return other,
        }
        proof {
            lemma_run_bounds::<Inp, V, H>(
                self.7,
                input.input,
                ctx.is_in_error_recovery,
                crate::context::exec_state(ctx, runner.stack@, eh, input),
            );
        }
        match run_match(&self.7, ctx, runner, eh, input) {
            Ok(true) => {},
            other => return other,
        }
        proof {
            lemma_run_bounds::<Inp, V, I>(
                self.8,
                input.input,
                ctx.is_in_error_recovery,
                crate::context::exec_state(ctx, runner.stack@, eh, input),
            );
        }
        match run_match(&self.8, ctx, runner, eh, input) {
            Ok(true) => run_match(&self.9, ctx, runner, eh, input),
            other => other,
        }
    }
}

impl<
    Inp: Input,
    V,
    A: Matcher<Inp, V>,
    B: Matcher<Inp, V>,
    C: Matcher<Inp, V>,
    D: Matcher<Inp, V>,
    E: Matcher<Inp, V>,
    F: Matcher<Inp, V>,
    G: Matcher<Inp, V>,
    H: Matcher<Inp, V>,
    I: Matcher<Inp, V>,
    J: Matcher<Inp, V>,
    K: Matcher<Inp, V>,
> Matcher<Inp, V> for (A, B, C, D, E, F, G, H, I, J, K) {
    open spec fn wf(&self) -> bool {
        self.0.wf() && self.1.wf() && self.2.wf() && self.3.wf() && self.4.wf() && self.5.wf() && self.6.wf() && self.7.wf() && self.8.wf() && self.9.wf() && self.10.wf()
    }

    open spec fn spec_label(&self) -> Option<Seq<char>> {
        None
    }

    open spec fn spec_match(&self, inp: Inp, rec: bool, s: State<V>) -> (Outcome<bool>, State<V>) {
        let (o1, s1) = spec_run::<Inp, V, A>(self.0, inp, rec, s);
        match o1 {
            Outcome::Done(true) => (self.1, self.2, self.3, self.4, self.5, self.6, self.7, self.8, self.9, self.10).spec_match(inp, rec, s1),
            _ => (o1, s1),
        }
    }

    proof fn lemma_match_bounds(&self, inp: Inp, rec: bool, s: State<V>) {
        lemma_run_bounds::<Inp, V, A>(self.0, inp, rec, s);
        let (o1, s1) = spec_run::<Inp, V, A>(self.0, inp, rec, s);
        if o1 == Outcome::<bool>::Done(true) {
            (self.1, self.2, self.3, self.4, self.5, self.6, self.7, self.8, self.9, self.10).lemma_match_bounds(inp, rec, s1);
            lemma_grows_trans(s, s1, (self.1, self.2, self.3, self.4, self.5, self.6, self.7, self.8, self.9, self.10).spec_match(inp, rec, s1).1);
        }
    }

    proof fn lemma_match_handler_blind(&self, inp: Inp, rec: bool, s: State<V>, eh2: HandlerModel) {
        lemma_run_bounds::<Inp, V, A>(self.0, inp, rec, s);
        lemma_run_handler_blind::<Inp, V, A>(self.0, inp, rec, s, eh2);
        lemma_run_handler_blind::<Inp, V, A>(self.0, inp, rec, s.with_eh(eh2), s.eh);
        let (o1, s1) = spec_run::<Inp, V, A>(self.0, inp, rec, s);
        let (o1b, s1b) = spec_run::<Inp, V, A>(self.0, inp, rec, s.with_eh(eh2));
        if o1 == Outcome::<bool>::Done(true) {
            let e = if o1b == Outcome::<bool>::Done(true) { s1b.eh } else { s1.eh };
            if o1b == Outcome::<bool>::Done(true) {
                assert(s1b == s1.with_eh(s1b.eh));
            }
            (self.1, self.2, self.3, self.4, self.5, self.6, self.7, self.8, self.9, self.10).lemma_match_handler_blind(inp, rec, s1, e);
        }
    }

    fn maybe_label(&self) -> (l: Option<String>) {
        None
    }

    #[verifier::rlimit(50)]
    fn match_with_runner<EH: ErrorHandler>(
        &self,
        ctx: &mut ParserContext<V>,
        runner: &mut NoMemoizeBacktrackingRunner<V>,
        eh: &mut EH,
        input: &mut InputStream<Inp>,
    ) -> (r: Result<bool, MatcherRunError>) {
        proof {
            lemma_run_bounds::<Inp, V, A>(
                self.0,
                input.input,
                ctx.is_in_error_recovery,
                crate::context::exec_state(ctx, runner.stack@, eh, input),
            );
        }
        match run_match(&self.0, ctx, runner, eh, input) {
            Ok(true) => {},
            other => return other,
        }
        proof {
            lemma_run_bounds::<Inp, V, B>(
                self.1,
                input.input,
                ctx.is_in_error_recovery,
                crate::context::exec_state(ctx, runner.stack@, eh, input),
            );
        }
        match run_match(&self.1, ctx, runner, eh, input) {
            Ok(true) => {},
            other => return other,
        }
        proof {
            lemma_run_bounds::<Inp, V, C>(
                self.2,
                input.input,
                ctx.is_in_error_recovery,
                crate::context::exec_state(ctx, runner.stack@, eh, input),
            );
        }
        match run_match(&self.2, ctx, runner, eh, input) {
            Ok(true) => {},
            other => return other,
        }
        proof {
            lemma_run_bounds::<Inp, V, D>(
                self.3,
                input.input,
                ctx.is_in_error_recovery,
                crate::context::exec_state(ctx, runner.stack@, eh, input),
            );
        }
        match run_match(&self.3, ctx, runner, eh, input) {
            Ok(true) => {},
            other => return other,
        }
        proof {
            lemma_run_bounds::<Inp, V, E>(
                self.4,
                input.input,
                ctx.is_in_error_recovery,
                crate::context::exec_state(ctx, runner.stack@, eh, input),
            );
        }
        match run_match(&self.4, ctx, runner, eh, input) {
            Ok(true) => {},
            other => return other,
        }
        proof {
            lemma_run_bounds::<Inp, V, F>(
                self.5,
                input.input,
                ctx.is_in_error_recovery,
                crate::context::exec_state(ctx, runner.stack@, eh, input),
            );
        }
        match run_match(&self.5, ctx, runner, eh, input) {
            Ok(true) => {},
            other => return other,
        }
        proof {
            lemma_run_bounds::<Inp, V, G>(
                self.6,
                input.input,
                ctx.is_in_error_recovery,
                crate::context::exec_state(ctx, runner.stack@, eh, input),
            );
        }
        match run_match(&self.6, ctx, runner, eh, input) {
            Ok(true) => {},
            other => return other,
        }
        proof {
            lemma_run_bounds::<Inp, V, H>(
                self.7,
                input.input,
                ctx.is_in_error_recovery,
                crate::context::exec_state(ctx, runner.stack@, eh, input),
            );
        }
        match run_match(&self.7, ctx, runner, eh, input) {
            Ok(true) => {},
            other => return other,
        }
        proof {
            lemma_run_bounds::<Inp, V, I>(
                self.8,
                input.input,
                ctx.is_in_error_recovery,
                crate::context::exec_state(ctx, runner.stack@, eh, input),
            );
        }
        match run_match(&self.8, ctx, runner, eh, input) {
            Ok(true) => {},
            other => return other,
        }
        proof {
            lemma_run_bounds::<Inp, V, J>(
                self.9,
                input.input,
                ctx.is_in_error_recovery,
                crate::context::exec_state(ctx, runner.stack@, eh, input),
            );
        }
        match run_match(&self.9, ctx, runner, eh, input) {
            Ok(true) => run_match(&self.10, ctx, runner, eh, input),
            other => other,
        }
    }
}

impl<
    Inp: Input,
    V,
    A: Matcher<Inp, V>,
    B: Matcher<Inp, V>,
    C: Matcher<Inp, V>,
    D: Matcher<Inp, V>,
    E: Matcher<Inp, V>,
    F: Matcher<Inp, V>,
    G: Matcher<Inp, V>,
    H: Matcher<Inp, V>,
    I: Matcher<Inp, V>,
    J: Matcher<Inp, V>,
    K: Matcher<Inp, V>,
    L: Matcher<Inp, V>,
> Matcher<Inp, V> for (A, B, C, D, E, F, G, H, I, J, K, L) {
    open spec fn wf(&self) -> bool {
        self.0.wf() && self.1.wf() && self.2.wf() && self.3.wf() && self.4.wf() && self.5.wf() && self.6.wf() && self.7.wf() && self.8.wf() && self.9.wf() && self.10.wf() && self.11.wf()
    }

    open spec fn spec_label(&self) -> Option<Seq<char>> {
        None
    }

    open spec fn spec_match(&self, inp: Inp, rec: bool, s: State<V>) -> (Outcome<bool>, State<V>) {
        let (o1, s1) = spec_run::<Inp, V, A>(self.0, inp, rec, s);
        match o1 {
            Outcome::Done(true) => (self.1, self.2, self.3, self.4, self.5, self.6, self.7, self.8, self.9, self.10, self.11).spec_match(inp, rec, s1),
            _ => (o1, s1),
        }
    }

    proof fn lemma_match_bounds(&self, inp: Inp, rec: bool, s: State<V>) {
        lemma_run_bounds::<Inp, V, A>(self.0, inp, rec, s);
        let (o1, s1) = spec_run::<Inp, V, A>(self.0, inp, rec, s);
        if o1 == Outcome::<bool>::Done(true) {
            (self.1, self.2, self.3, self.4, self.5, self.6, self.7, self.8, self.9, self.10, self.11).lemma_match_bounds(inp, rec, s1);
            lemma_grows_trans(s, s1, (self.1, self.2, self.3, self.4, self.5, self.6, self.7, self.8, self.9, self.10, self.11).spec_match(inp, rec, s1).1);
        }
    }

    proof fn lemma_match_handler_blind(&self, inp: Inp, rec: bool, s: State<V>, eh2: HandlerModel) {
        lemma_run_bounds::<Inp, V, A>(self.0, inp, rec, s);
        lemma_run_handler_blind::<Inp, V, A>(self.0, inp, rec, s, eh2);
        lemma_run_handler_blind::<Inp, V, A>(self.0, inp, rec, s.with_eh(eh2), s.eh);
        let (o1, s1) = spec_run::<Inp, V, A>(self.0, inp, rec, s);
        let (o1b, s1b) = spec_run::<Inp, V, A>(self.0, inp, rec, s.with_eh(eh2));
        if o1 == Outcome::<bool>::Done(true) {
            let e = if o1b == Outcome::<bool>::Done(true) { s1b.eh } else { s1.eh };
            if o1b == Outcome::<bool>::Done(true) {
                assert(s1b == s1.with_eh(s1b.eh));
            }
            (self.1, self.2, self.3, self.4, self.5, self.6, self.7, self.8, self.9, self.10, self.11).lemma_match_handler_blind(inp, rec, s1, e);
        }
    }

    fn maybe_label(&self) -> (l: Option<String>) {
        None
    }

    #[verifier::rlimit(50)]
    fn match_with_runner<EH: ErrorHandler>(
        &self,
        ctx: &mut ParserContext<V>,
        runner: &mut NoMemoizeBacktrackingRunner<V>,
        eh: &mut EH,
        input: &mut InputStream<Inp>,
    ) -> (r: Result<bool, MatcherRunError>) {
        proof {
            lemma_run_bounds::<Inp, V, A>(
                self.0,
                input.input,
                ctx.is_in_error_recovery,
                crate::context::exec_state(ctx, runner.stack@, eh, input),
            );
        }
        match run_match(&self.0, ctx, runner, eh, input) {
            Ok(true) => {},
            other => return other,
        }
        proof {
            lemma_run_bounds::<Inp, V, B>(
                self.1,
                input.input,
                ctx.is_in_error_recovery,
                crate::context::exec_state(ctx, runner.stack@, eh, input),
            );
        }
        match run_match(&self.1, ctx, runner, eh, input) {
            Ok(true) => {},
            other => return other,
        }
        proof {
            lemma_run_bounds::<Inp, V, C>(
                self.2,
                input.input,
                ctx.is_in_error_recovery,
                crate::context::exec_state(ctx, runner.stack@, eh, input),
            );
        }
        match run_match(&self.2, ctx, runner, eh, input) {
            Ok(true) => {},
            other => return other,
        }
        proof {
            lemma_run_bounds::<Inp, V, D>(
                self.3,
                input.input,
                ctx.is_in_error_recovery,
                crate::context::exec_state(ctx, runner.stack@, eh, input),
            );
        }
        match run_match(&self.3, ctx, runner, eh, input) {
            Ok(true) => {},
            other => return other,
        }
        proof {
            lemma_run_bounds::<Inp, V, E>(
                self.4,
                input.input,
                ctx.is_in_error_recovery,
                crate::context::exec_state(ctx, runner.stack@, eh, input),
            );
        }
        match run_match(&self.4, ctx, runner, eh, input) {
            Ok(true) => {},
            other => return other,
        }
        proof {
            lemma_run_bounds::<Inp, V, F>(
                self.5,
                input.input,
                ctx.is_in_error_recovery,
                crate::context::exec_state(ctx, runner.stack@, eh, input),
            );
        }
        match run_match(&self.5, ctx, runner, eh, input) {
            Ok(true) => {},
            other => return other,
        }
        proof {
            lemma_run_bounds::<Inp, V, G>(
                self.6,
                input.input,
                ctx.is_in_error_recovery,
                crate::context::exec_state(ctx, runner.stack@, eh, input),
            );
        }
        match run_match(&self.6, ctx, runner, eh, input) {
            Ok(true) => {},
            other => return other,
        }
        proof {
            lemma_run_bounds::<Inp, V, H>(
                self.7,
                input.input,
                ctx.is_in_error_recovery,
                crate::context::exec_state(ctx, runner.stack@, eh, input),
            );
        }
        match run_match(&self.7, ctx, runner, eh, input) {
            Ok(true) => {},
            other => return other,
        }
        proof {
            lemma_run_bounds::<Inp, V, I>(
                self.8,
                input.input,
                ctx.is_in_error_recovery,
                crate::context::exec_state(ctx, runner.stack@, eh, input),
            );
        }
        match run_match(&self.8, ctx, runner, eh, input) {
            Ok(true) => {},
            other => return other,
        }
        proof {
            lemma_run_bounds::<Inp, V, J>(
                self.9,
                input.input,
                ctx.is_in_error_recovery,
                crate::context::exec_state(ctx, runner.stack@, eh, input),
            );
        }
        match run_match(&self.9, ctx, runner, eh, input) {
            Ok(true) => {},
            other => return other,
        }
        proof {
            lemma_run_bounds::<Inp, V, K>(
                self.10,
                input.input,
                ctx.is_in_error_recovery,
                crate::context::exec_state(ctx, runner.stack@, eh, input),
            );
        }
        match run_match(&self.10, ctx, runner, eh, input) {
            Ok(true) => run_match(&self.11, ctx, runner, eh, input),
            other => other,
        }
    }
}


/// A sequence of 2 runs its first element and, only where that matches, the remaining
/// elements from where it stopped; any other outcome of the first element is the outcome of
/// the sequence, at the state it left.
pub proof fn lemma_sequence2_runs_in_order<Inp: Input, V, A: Matcher<Inp, V>, B: Matcher<Inp, V>>(t: (A, B), inp: Inp, rec: bool, s: State<V>)
    ensures
        ({
            let (o1, s1) = spec_run::<Inp, V, A>(t.0, inp, rec, s);
            let r = <(A, B) as Matcher<Inp, V>>::spec_match(&t, inp, rec, s);
            &&& o1 == Outcome::<bool>::Done(true) ==> r == spec_run::<Inp, V, B>(t.1, inp, rec, s1)
            &&& o1 != Outcome::<bool>::Done(true) ==> r == (o1, s1)
        }),
{
}

/// A sequence of 3 runs its first element and, only where that matches, the remaining
/// elements from where it stopped; any other outcome of the first element is the outcome of
/// the sequence, at the state it left.
pub proof fn lemma_sequence3_runs_in_order<Inp: Input, V, A: Matcher<Inp, V>, B: Matcher<Inp, V>, C: Matcher<Inp, V>>(t: (A, B, C), inp: Inp, rec: bool, s: State<V>)
    ensures
        ({
            let (o1, s1) = spec_run::<Inp, V, A>(t.0, inp, rec, s);
            let r = <(A, B, C) as Matcher<Inp, V>>::spec_match(&t, inp, rec, s);
            &&& o1 == Outcome::<bool>::Done(true) ==> r == <(B, C) as Matcher<Inp, V>>::spec_match(&(t.1, t.2), inp, rec, s1)
            &&& o1 != Outcome::<bool>::Done(true) ==> r == (o1, s1)
        }),
{
}

/// A sequence of 4 runs its first element and, only where that matches, the remaining
/// elements from where it stopped; any other outcome of the first element is the outcome of
/// the sequence, at the state it left.
pub proof fn lemma_sequence4_runs_in_order<Inp: Input, V, A: Matcher<Inp, V>, B: Matcher<Inp, V>, C: Matcher<Inp, V>, D: Matcher<Inp, V>>(t: (A, B, C, D), inp: Inp, rec: bool, s: State<V>)
    ensures
        ({
            let (o1, s1) = spec_run::<Inp, V, A>(t.0, inp, rec, s);
            let r = <(A, B, C, D) as Matcher<Inp, V>>::spec_match(&t, inp, rec, s);
            &&& o1 == Outcome::<bool>::Done(true) ==> r == <(B, C, D) as Matcher<Inp, V>>::spec_match(&(t.1, t.2, t.3), inp, rec, s1)
            &&& o1 != Outcome::<bool>::Done(true) ==> r == (o1, s1)
        }),
{
}

/// A sequence of 5 runs its first element and, only where that matches, the remaining
/// elements from where it stopped; any other outcome of the first element is the outcome of
/// the sequence, at the state it left.
pub proof fn lemma_sequence5_runs_in_order<Inp: Input, V, A: Matcher<Inp, V>, B: Matcher<Inp, V>, C: Matcher<Inp, V>, D: Matcher<Inp, V>, E: Matcher<Inp, V>>(t: (A, B, C, D, E), inp: Inp, rec: bool, s: State<V>)
    ensures
        ({
            let (o1, s1) = spec_run::<Inp, V, A>(t.0, inp, rec, s);
            let r = <(A, B, C, D, E) as Matcher<Inp, V>>::spec_match(&t, inp, rec, s);
            &&& o1 == Outcome::<bool>::Done(true) ==> r == <(B, C, D, E) as Matcher<Inp, V>>::spec_match(&(t.1, t.2, t.3, t.4), inp, rec, s1)
            &&& o1 != Outcome::<bool>::Done(true) ==> r == (o1, s1)
        }),
{
}

/// A sequence of 6 runs its first element and, only where that matches, the remaining
/// elements from where it stopped; any other outcome of the first element is the outcome of
/// the sequence, at the state it left.
pub proof fn lemma_sequence6_runs_in_order<Inp: Input, V, A: Matcher<Inp, V>, B: Matcher<Inp, V>, C: Matcher<Inp, V>, D: Matcher<Inp, V>, E: Matcher<Inp, V>, F: Matcher<Inp, V>>(t: (A, B, C, D, E, F), inp: Inp, rec: bool, s: State<V>)
    ensures
        ({
            let (o1, s1) = spec_run::<Inp, V, A>(t.0, inp, rec, s);
            let r = <(A, B, C, D, E, F) as Matcher<Inp, V>>::spec_match(&t, inp, rec, s);
            &&& o1 == Outcome::<bool>::Done(true) ==> r == <(B, C, D, E, F) as Matcher<Inp, V>>::spec_match(&(t.1, t.2, t.3, t.4, t.5), inp, rec, s1)
            &&& o1 != Outcome::<bool>::Done(true) ==> r == (o1, s1)
        }),
{
}

/// A sequence of 7 runs its first element and, only where that matches, the remaining
/// elements from where it stopped; any other outcome of the first element is the outcome of
/// the sequence, at the state it left.
pub proof fn lemma_sequence7_runs_in_order<Inp: Input, V, A: Matcher<Inp, V>, B: Matcher<Inp, V>, C: Matcher<Inp, V>, D: Matcher<Inp, V>, E: Matcher<Inp, V>, F: Matcher<Inp, V>, G: Matcher<Inp, V>>(t: (A, B, C, D, E, F, G), inp: Inp, rec: bool, s: State<V>)
    ensures
        ({
            let (o1, s1) = spec_run::<Inp, V, A>(t.0, inp, rec, s);
            let r = <(A, B, C, D, E, F, G) as Matcher<Inp, V>>::spec_match(&t, inp, rec, s);
            &&& o1 == Outcome::<bool>::Done(true) ==> r == <(B, C, D, E, F, G) as Matcher<Inp, V>>::spec_match(&(t.1, t.2, t.3, t.4, t.5, t.6), inp, rec, s1)
            &&& o1 != Outcome::<bool>::Done(true) ==> r == (o1, s1)
        }),
{
}

/// A sequence of 8 runs its first element and, only where that matches, the remaining
/// elements from where it stopped; any other outcome of the first element is the outcome of
/// the sequence, at the state it left.
pub proof fn lemma_sequence8_runs_in_order<Inp: Input, V, A: Matcher<Inp, V>, B: Matcher<Inp, V>, C: Matcher<Inp, V>, D: Matcher<Inp, V>, E: Matcher<Inp, V>, F: Matcher<Inp, V>, G: Matcher<Inp, V>, H: Matcher<Inp, V>>(t: (A, B, C, D, E, F, G, H), inp: Inp, rec: bool, s: State<V>)
    ensures
        ({
            let (o1, s1) = spec_run::<Inp, V, A>(t.0, inp, rec, s);
            let r = <(A, B, C, D, E, F, G, H) as Matcher<Inp, V>>::spec_match(&t, inp, rec, s);
            &&& o1 == Outcome::<bool>::Done(true) ==> r == <(B, C, D, E, F, G, H) as Matcher<Inp, V>>::spec_match(&(t.1, t.2, t.3, t.4, t.5, t.6, t.7), inp, rec, s1)
            &&& o1 != Outcome::<bool>::Done(true) ==> r == (o1, s1)
        }),
{
}

/// A sequence of 9 runs its first element and, only where that matches, the remaining
/// elements from where it stopped; any other outcome of the first element is the outcome of
/// the sequence, at the state it left.
pub proof fn lemma_sequence9_runs_in_order<Inp: Input, V, A: Matcher<Inp, V>, B: Matcher<Inp, V>, C: Matcher<Inp, V>, D: Matcher<Inp, V>, E: Matcher<Inp, V>, F: Matcher<Inp, V>, G: Matcher<Inp, V>, H: Matcher<Inp, V>, I: Matcher<Inp, V>>(t: (A, B, C, D, E, F, G, H, I), inp: Inp, rec: bool, s: State<V>)
    ensures
        ({
            let (o1, s1) = spec_run::<Inp, V, A>(t.0, inp, rec, s);
            let r = <(A, B, C, D, E, F, G, H, I) as Matcher<Inp, V>>::spec_match(&t, inp, rec, s);
            &&& o1 == Outcome::<bool>::Done(true) ==> r == <(B, C, D, E, F, G, H, I) as Matcher<Inp, V>>::spec_match(&(t.1, t.2, t.3, t.4, t.5, t.6, t.7, t.8), inp, rec, s1)
            &&& o1 != Outcome::<bool>::Done(true) ==> r == (o1, s1)
        }),
{
}

/// A sequence of 10 runs its first element and, only where that matches, the remaining
/// elements from where it stopped; any other outcome of the first element is the outcome of
/// the sequence, at the state it left.
pub proof fn lemma_sequence10_runs_in_order<Inp: Input, V, A: Matcher<Inp, V>, B: Matcher<Inp, V>, C: Matcher<Inp, V>, D: Matcher<Inp, V>, E: Matcher<Inp, V>, F: Matcher<Inp, V>, G: Matcher<Inp, V>, H: Matcher<Inp, V>, I: Matcher<Inp, V>, J: Matcher<Inp, V>>(t: (A, B, C, D, E, F, G, H, I, J), inp: Inp, rec: bool, s: State<V>)
    ensures
        ({
            let (o1, s1) = spec_run::<Inp, V, A>(t.0, inp, rec, s);
            let r = <(A, B, C, D, E, F, G, H, I, J) as Matcher<Inp, V>>::spec_match(&t, inp, rec, s);
            &&& o1 == Outcome::<bool>::Done(true) ==> r == <(B, C, D, E, F, G, H, I, J) as Matcher<Inp, V>>::spec_match(&(t.1, t.2, t.3, t.4, t.5, t.6, t.7, t.8, t.9), inp, rec, s1)
            &&& o1 != Outcome::<bool>::Done(true) ==> r == (o1, s1)
        }),
{
}

/// A sequence of 11 runs its first element and, only where that matches, the remaining
/// elements from where it stopped; any other outcome of the first element is the outcome of
/// the sequence, at the state it left.
pub proof fn lemma_sequence11_runs_in_order<Inp: Input, V, A: Matcher<Inp, V>, B: Matcher<Inp, V>, C: Matcher<Inp, V>, D: Matcher<Inp, V>, E: Matcher<Inp, V>, F: Matcher<Inp, V>, G: Matcher<Inp, V>, H: Matcher<Inp, V>, I: Matcher<Inp, V>, J: Matcher<Inp, V>, K: Matcher<Inp, V>>(t: (A, B, C, D, E, F, G, H, I, J, K), inp: Inp, rec: bool, s: State<V>)
    ensures
        ({
            let (o1, s1) = spec_run::<Inp, V, A>(t.0, inp, rec, s);
            let r = <(A, B, C, D, E, F, G, H, I, J, K) as Matcher<Inp, V>>::spec_match(&t, inp, rec, s);
            &&& o1 == Outcome::<bool>::Done(true) ==> r == <(B, C, D, E, F, G, H, I, J, K) as Matcher<Inp, V>>::spec_match(&(t.1, t.2, t.3, t.4, t.5, t.6, t.7, t.8, t.9, t.10), inp, rec, s1)
            &&& o1 != Outcome::<bool>::Done(true) ==> r == (o1, s1)
        }),
{
}

/// A sequence of 12 runs its first element and, only where that matches, the remaining
/// elements from where it stopped; any other outcome of the first element is the outcome of
/// the sequence, at the state it left.
pub proof fn lemma_sequence12_runs_in_order<Inp: Input, V, A: Matcher<Inp, V>, B: Matcher<Inp, V>, C: Matcher<Inp, V>, D: Matcher<Inp, V>, E: Matcher<Inp, V>, F: Matcher<Inp, V>, G: Matcher<Inp, V>, H: Matcher<Inp, V>, I: Matcher<Inp, V>, J: Matcher<Inp, V>, K: Matcher<Inp, V>, L: Matcher<Inp, V>>(t: (A, B, C, D, E, F, G, H, I, J, K, L), inp: Inp, rec: bool, s: State<V>)
    ensures
        ({
            let (o1, s1) = spec_run::<Inp, V, A>(t.0, inp, rec, s);
            let r = <(A, B, C, D, E, F, G, H, I, J, K, L) as Matcher<Inp, V>>::spec_match(&t, inp, rec, s);
            &&& o1 == Outcome::<bool>::Done(true) ==> r == <(B, C, D, E, F, G, H, I, J, K, L) as Matcher<Inp, V>>::spec_match(&(t.1, t.2, t.3, t.4, t.5, t.6, t.7, t.8, t.9, t.10, t.11), inp, rec, s1)
            &&& o1 != Outcome::<bool>::Done(true) ==> r == (o1, s1)
        }),
{
}


} // verus!
