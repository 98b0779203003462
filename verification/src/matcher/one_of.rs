//! Ordered choice: the first alternative that matches wins.
use vstd::prelude::*;
use crate::error_handler::HandlerModel;
use crate::context::{Outcome, ParserContext, State, exec_state, same_but_handler};
use crate::error::MatcherRunError;
use crate::error_handler::ErrorHandler;
use crate::input::{Input, InputStream};
use crate::matcher::{
    Matcher, NoMemoizeBacktrackingRunner, lemma_grows_trans, lemma_run_bounds, lemma_run_handler_blind,
    run_match, spec_run,
};

verus! {

/// Ordered choice over a tuple of alternatives.
pub struct OneOf<T> {
    /// The alternatives, tried in order.
    pub options: T,
}

impl<T> OneOf<T> {
    /// Choose among `options`.
    pub fn new(options: T) -> (r: Self)
        ensures
            r.options == options,
    {
        OneOf { options }
    }
}

/// See [`OneOf`].
pub fn one_of<T>(options: T) -> (r: OneOf<T>)
    ensures
        r.options == options,
{
    OneOf::new(options)
}

/// `a`, and where it misses, `b` from the restored state.
pub open spec fn spec_or<Inp: Input, V, A: Matcher<Inp, V>, B: Matcher<Inp, V>>(
    a: A,
    b: B,
    inp: Inp,
    rec: bool,
    s: State<V>,
) -> (Outcome<bool>, State<V>) {
    let (o1, s1) = spec_run::<Inp, V, A>(a, inp, rec, s);
    match o1 {
        Outcome::Done(false) => spec_run::<Inp, V, B>(b, inp, rec, s1),
        _ => (o1, s1),
    }
}

/// Bounds of [`spec_or`]; a miss ends where it started.
pub proof fn lemma_or_bounds<Inp: Input, V, A: Matcher<Inp, V>, B: Matcher<Inp, V>>(
    a: A,
    b: B,
    inp: Inp,
    rec: bool,
    s: State<V>,
)
    requires
        a.wf(),
        b.wf(),
        s.valid(inp.spec_len()),
    ensures
        ({
            let (o, s2) = spec_or::<Inp, V, A, B>(a, b, inp, rec, s);
            &&& s2.valid(inp.spec_len())
            &&& o == Outcome::Done(true) ==> s.pos <= s2.pos
            &&& o == Outcome::Done(false) ==> s2.pos == s.pos
            &&& super::grows(s, s2)
        }),
{
    lemma_run_bounds::<Inp, V, A>(a, inp, rec, s);
    let (o1, s1) = spec_run::<Inp, V, A>(a, inp, rec, s);
    if o1 == Outcome::<bool>::Done(false) {
        lemma_run_bounds::<Inp, V, B>(b, inp, rec, s1);
        lemma_grows_trans(s, s1, spec_run::<Inp, V, B>(b, inp, rec, s1).1);
    }
}

/// [`spec_or`] depends on the error handler's state only through whether it collects errors
/// (see [`Matcher::lemma_match_handler_blind`]).
pub proof fn lemma_or_handler_blind<Inp: Input, V, A: Matcher<Inp, V>, B: Matcher<Inp, V>>(
    a: A,
    b: B,
    inp: Inp,
    rec: bool,
    s: State<V>,
    eh2: HandlerModel,
)
    requires
        a.wf(),
        b.wf(),
        s.valid(inp.spec_len()),
        eh2.is_real() == s.eh.is_real(),
    ensures
        ({
            let (o1, s1) = spec_or::<Inp, V, A, B>(a, b, inp, rec, s);
            let (o2, s2) = spec_or::<Inp, V, A, B>(a, b, inp, rec, s.with_eh(eh2));
            &&& !(o1 is Stuck) ==> s1.eh.is_real() == s.eh.is_real()
            &&& !(o1 is Stuck) && !(o2 is Stuck) ==> o1 == o2 && same_but_handler(s1, s2)
        }),
{
    lemma_run_bounds::<Inp, V, A>(a, inp, rec, s);
    lemma_run_handler_blind::<Inp, V, A>(a, inp, rec, s, eh2);
    lemma_run_handler_blind::<Inp, V, A>(a, inp, rec, s.with_eh(eh2), s.eh);
    let (o1, s1) = spec_run::<Inp, V, A>(a, inp, rec, s);
    let (o1b, s1b) = spec_run::<Inp, V, A>(a, inp, rec, s.with_eh(eh2));
    if o1 == Outcome::<bool>::Done(false) {
        let e = if o1b == Outcome::<bool>::Done(false) { s1b.eh } else { s1.eh };
        if o1b == Outcome::<bool>::Done(false) {
            assert(s1b == s1.with_eh(s1b.eh));
        }
        lemma_run_handler_blind::<Inp, V, B>(b, inp, rec, s1, e);
    }
}

impl<Inp: Input, V, A: Matcher<Inp, V>, B: Matcher<Inp, V>> Matcher<Inp, V> for OneOf<(A, B)> {
    open spec fn wf(&self) -> bool {
        self.options.0.wf() && self.options.1.wf()
    }

    open spec fn spec_label(&self) -> Option<Seq<char>> {
        None
    }

    open spec fn spec_match(&self, inp: Inp, rec: bool, s: State<V>) -> (Outcome<bool>, State<V>) {
        spec_or::<Inp, V, A, B>(self.options.0, self.options.1, inp, rec, s)
    }

    proof fn lemma_match_bounds(&self, inp: Inp, rec: bool, s: State<V>) {
        lemma_or_bounds::<Inp, V, A, B>(self.options.0, self.options.1, inp, rec, s);
    }

    proof fn lemma_match_handler_blind(&self, inp: Inp, rec: bool, s: State<V>, eh2: HandlerModel) {
        lemma_or_handler_blind::<Inp, V, A, B>(self.options.0, self.options.1, inp, rec, s, eh2);
    }

    fn maybe_label(&self) -> (l: Option<String>) {
        None
    }

    fn match_with_runner<EH: ErrorHandler>(
        &self,
        ctx: &mut ParserContext<V>,
        runner: &mut NoMemoizeBacktrackingRunner<V>,
        eh: &mut EH,
        input: &mut InputStream<Inp>,
    ) -> (r: Result<bool, MatcherRunError>) {
        proof {
            lemma_run_bounds::<Inp, V, A>(
                self.options.0,
                input.input,
                ctx.is_in_error_recovery,
                exec_state(ctx, runner.stack@, eh, input),
            );
        }
        match run_match(&self.options.0, ctx, runner, eh, input) {
            Ok(false) => run_match(&self.options.1, ctx, runner, eh, input),
            other => other,
        }
    }
}

impl<Inp: Input, V, A: Matcher<Inp, V>, B: Matcher<Inp, V>, C: Matcher<Inp, V>> Matcher<
    Inp,
    V,
> for OneOf<(A, B, C)> {
    open spec fn wf(&self) -> bool {
        self.options.0.wf() && self.options.1.wf() && self.options.2.wf()
    }

    open spec fn spec_label(&self) -> Option<Seq<char>> {
        None
    }

    open spec fn spec_match(&self, inp: Inp, rec: bool, s: State<V>) -> (Outcome<bool>, State<V>) {
        let (o1, s1) = spec_run::<Inp, V, A>(self.options.0, inp, rec, s);
        match o1 {
            Outcome::Done(false) => spec_or::<Inp, V, B, C>(
                self.options.1,
                self.options.2,
                inp,
                rec,
                s1,
            ),
            _ => (o1, s1),
        }
    }

    proof fn lemma_match_bounds(&self, inp: Inp, rec: bool, s: State<V>) {
        lemma_run_bounds::<Inp, V, A>(self.options.0, inp, rec, s);
        let (o1, s1) = spec_run::<Inp, V, A>(self.options.0, inp, rec, s);
        if o1 == Outcome::<bool>::Done(false) {
            lemma_or_bounds::<Inp, V, B, C>(self.options.1, self.options.2, inp, rec, s1);
            lemma_grows_trans(
                s,
                s1,
                spec_or::<Inp, V, B, C>(self.options.1, self.options.2, inp, rec, s1).1,
            );
        }
    }

    proof fn lemma_match_handler_blind(&self, inp: Inp, rec: bool, s: State<V>, eh2: HandlerModel) {
        lemma_run_bounds::<Inp, V, A>(self.options.0, inp, rec, s);
        lemma_run_handler_blind::<Inp, V, A>(self.options.0, inp, rec, s, eh2);
        lemma_run_handler_blind::<Inp, V, A>(self.options.0, inp, rec, s.with_eh(eh2), s.eh);
        let (o1, s1) = spec_run::<Inp, V, A>(self.options.0, inp, rec, s);
        let (o1b, s1b) = spec_run::<Inp, V, A>(self.options.0, inp, rec, s.with_eh(eh2));
        if o1 == Outcome::<bool>::Done(false) {
            let e = if o1b == Outcome::<bool>::Done(false) { s1b.eh } else { s1.eh };
            if o1b == Outcome::<bool>::Done(false) {
                assert(s1b == s1.with_eh(s1b.eh));
            }
            lemma_or_handler_blind::<Inp, V, B, C>(self.options.1, self.options.2, inp, rec, s1, e);
        }
    }

    fn maybe_label(&self) -> (l: Option<String>) {
        None
    }

    fn match_with_runner<EH: ErrorHandler>(
        &self,
        ctx: &mut ParserContext<V>,
        runner: &mut NoMemoizeBacktrackingRunner<V>,
        eh: &mut EH,
        input: &mut InputStream<Inp>,
    ) -> (r: Result<bool, MatcherRunError>) {
        proof {
            lemma_run_bounds::<Inp, V, A>(
                self.options.0,
                input.input,
                ctx.is_in_error_recovery,
                exec_state(ctx, runner.stack@, eh, input),
            );
        }
        match run_match(&self.options.0, ctx, runner, eh, input) {
            Ok(false) => {},
            other => return other,
        }
        proof {
            lemma_run_bounds::<Inp, V, B>(
                self.options.1,
                input.input,
                ctx.is_in_error_recovery,
                exec_state(ctx, runner.stack@, eh, input),
            );
        }
        match run_match(&self.options.1, ctx, runner, eh, input) {
            Ok(false) => run_match(&self.options.2, ctx, runner, eh, input),
            other => other,
        }
    }
}

impl<Inp: Input, V, A: Matcher<Inp, V>> Matcher<Inp, V> for OneOf<(A,)> {
    open spec fn wf(&self) -> bool {
        self.options.0.wf()
    }

    open spec fn spec_label(&self) -> Option<Seq<char>> {
        None
    }

    open spec fn spec_match(&self, inp: Inp, rec: bool, s: State<V>) -> (Outcome<bool>, State<V>) {
        spec_run::<Inp, V, A>(self.options.0, inp, rec, s)
    }

    proof fn lemma_match_bounds(&self, inp: Inp, rec: bool, s: State<V>) {
        lemma_run_bounds::<Inp, V, A>(self.options.0, inp, rec, s);
    }

    proof fn lemma_match_handler_blind(&self, inp: Inp, rec: bool, s: State<V>, eh2: HandlerModel) {
        lemma_run_handler_blind::<Inp, V, A>(self.options.0, inp, rec, s, eh2);
    }

    fn maybe_label(&self) -> (l: Option<String>) {
        None
    }

    fn match_with_runner<EH: ErrorHandler>(
        &self,
        ctx: &mut ParserContext<V>,
        runner: &mut NoMemoizeBacktrackingRunner<V>,
        eh: &mut EH,
        input: &mut InputStream<Inp>,
    ) -> (r: Result<bool, MatcherRunError>) {
        run_match(&self.options.0, ctx, runner, eh, input)
    }
}

impl<
    Inp: Input,
    V,
    A: Matcher<Inp, V>,
    B: Matcher<Inp, V>,
    C: Matcher<Inp, V>,
    D: Matcher<Inp, V>,
> Matcher<Inp, V> for OneOf<(A, B, C, D)> {
    open spec fn wf(&self) -> bool {
        self.options.0.wf() && self.options.1.wf() && self.options.2.wf() && self.options.3.wf()
    }

    open spec fn spec_label(&self) -> Option<Seq<char>> {
        None
    }

    open spec fn spec_match(&self, inp: Inp, rec: bool, s: State<V>) -> (Outcome<bool>, State<V>) {
        let (o1, s1) = spec_run::<Inp, V, A>(self.options.0, inp, rec, s);
        match o1 {
            Outcome::Done(false) => (OneOf { options: (self.options.1, self.options.2, self.options.3) }).spec_match(
                inp,
                rec,
                s1,
            ),
            _ => (o1, s1),
        }
    }

    proof fn lemma_match_bounds(&self, inp: Inp, rec: bool, s: State<V>) {
        lemma_run_bounds::<Inp, V, A>(self.options.0, inp, rec, s);
        let (o1, s1) = spec_run::<Inp, V, A>(self.options.0, inp, rec, s);
        if o1 == Outcome::<bool>::Done(false) {
            let rest = OneOf { options: (self.options.1, self.options.2, self.options.3) };
            rest.lemma_match_bounds(inp, rec, s1);
            lemma_grows_trans(s, s1, rest.spec_match(inp, rec, s1).1);
        }
    }

    proof fn lemma_match_handler_blind(&self, inp: Inp, rec: bool, s: State<V>, eh2: HandlerModel) {
        lemma_run_bounds::<Inp, V, A>(self.options.0, inp, rec, s);
        lemma_run_handler_blind::<Inp, V, A>(self.options.0, inp, rec, s, eh2);
        lemma_run_handler_blind::<Inp, V, A>(self.options.0, inp, rec, s.with_eh(eh2), s.eh);
        let (o1, s1) = spec_run::<Inp, V, A>(self.options.0, inp, rec, s);
        let (o1b, s1b) = spec_run::<Inp, V, A>(self.options.0, inp, rec, s.with_eh(eh2));
        if o1 == Outcome::<bool>::Done(false) {
            let e = if o1b == Outcome::<bool>::Done(false) { s1b.eh } else { s1.eh };
            if o1b == Outcome::<bool>::Done(false) {
                assert(s1b == s1.with_eh(s1b.eh));
            }
            (OneOf { options: (self.options.1, self.options.2, self.options.3) }).lemma_match_handler_blind(inp, rec, s1, e);
        }
    }

    fn maybe_label(&self) -> (l: Option<String>) {
        None
    }

    fn match_with_runner<EH: ErrorHandler>(
        &self,
        ctx: &mut ParserContext<V>,
        runner: &mut NoMemoizeBacktrackingRunner<V>,
        eh: &mut EH,
        input: &mut InputStream<Inp>,
    ) -> (r: Result<bool, MatcherRunError>) {
        proof {
            lemma_run_bounds::<Inp, V, A>(
                self.options.0,
                input.input,
                ctx.is_in_error_recovery,
                exec_state(ctx, runner.stack@, eh, input),
            );
        }
        match run_match(&self.options.0, ctx, runner, eh, input) {
            Ok(false) => {},
            other => return other,
        }
        proof {
            lemma_run_bounds::<Inp, V, B>(
                self.options.1,
                input.input,
                ctx.is_in_error_recovery,
                exec_state(ctx, runner.stack@, eh, input),
            );
        }
        match run_match(&self.options.1, ctx, runner, eh, input) {
            Ok(false) => {},
            other => return other,
        }
        proof {
            lemma_run_bounds::<Inp, V, C>(
                self.options.2,
                input.input,
                ctx.is_in_error_recovery,
                exec_state(ctx, runner.stack@, eh, input),
            );
        }
        match run_match(&self.options.2, ctx, runner, eh, input) {
            Ok(false) => run_match(&self.options.3, ctx, runner, eh, input),
            other => other,
        }
    }
}

impl<
    Inp: Input,
    V,
    A: Matcher<Inp, V>,
    B: Matcher<Inp, V>,
    C: Matcher<Inp, V>,
    D: Matcher<Inp, V>,
    E: Matcher<Inp, V>,
> Matcher<Inp, V> for OneOf<(A, B, C, D, E)> {
    open spec fn wf(&self) -> bool {
        self.options.0.wf() && self.options.1.wf() && self.options.2.wf() && self.options.3.wf() && self.options.4.wf()
    }

    open spec fn spec_label(&self) -> Option<Seq<char>> {
        None
    }

    open spec fn spec_match(&self, inp: Inp, rec: bool, s: State<V>) -> (Outcome<bool>, State<V>) {
        let (o1, s1) = spec_run::<Inp, V, A>(self.options.0, inp, rec, s);
        match o1 {
            Outcome::Done(false) => (OneOf { options: (self.options.1, self.options.2, self.options.3, self.options.4) }).spec_match(inp, rec, s1),
            _ => (o1, s1),
        }
    }

    proof fn lemma_match_bounds(&self, inp: Inp, rec: bool, s: State<V>) {
        lemma_run_bounds::<Inp, V, A>(self.options.0, inp, rec, s);
        let (o1, s1) = spec_run::<Inp, V, A>(self.options.0, inp, rec, s);
        if o1 == Outcome::<bool>::Done(false) {
            let rest = OneOf { options: (self.options.1, self.options.2, self.options.3, self.options.4) };
            rest.lemma_match_bounds(inp, rec, s1);
            lemma_grows_trans(s, s1, rest.spec_match(inp, rec, s1).1);
        }
    }

    proof fn lemma_match_handler_blind(&self, inp: Inp, rec: bool, s: State<V>, eh2: HandlerModel) {
        lemma_run_bounds::<Inp, V, A>(self.options.0, inp, rec, s);
        lemma_run_handler_blind::<Inp, V, A>(self.options.0, inp, rec, s, eh2);
        lemma_run_handler_blind::<Inp, V, A>(self.options.0, inp, rec, s.with_eh(eh2), s.eh);
        let (o1, s1) = spec_run::<Inp, V, A>(self.options.0, inp, rec, s);
        let (o1b, s1b) = spec_run::<Inp, V, A>(self.options.0, inp, rec, s.with_eh(eh2));
        if o1 == Outcome::<bool>::Done(false) {
            let e = if o1b == Outcome::<bool>::Done(false) { s1b.eh } else { s1.eh };
            if o1b == Outcome::<bool>::Done(false) {
                assert(s1b == s1.with_eh(s1b.eh));
            }
            (OneOf { options: (self.options.1, self.options.2, self.options.3, self.options.4) }).lemma_match_handler_blind(inp, rec, s1, e);
        }
    }

    fn maybe_label(&self) -> (l: Option<String>) {
        None
    }

    #[verifier::rlimit(50)]
    fn match_with_runner<EH: ErrorHandler>(
        &self,
        ctx: &mut ParserContext<V>,
        runner: &mut NoMemoizeBacktrackingRunner<V>,
        eh: &mut EH,
        input: &mut InputStream<Inp>,
    ) -> (r: Result<bool, MatcherRunError>) {
        proof {
            lemma_run_bounds::<Inp, V, A>(
                self.options.0,
                input.input,
                ctx.is_in_error_recovery,
                exec_state(ctx, runner.stack@, eh, input),
            );
        }
        match run_match(&self.options.0, ctx, runner, eh, input) {
            Ok(false) => {},
            other => return other,
        }
        proof {
            lemma_run_bounds::<Inp, V, B>(
                self.options.1,
                input.input,
                ctx.is_in_error_recovery,
                exec_state(ctx, runner.stack@, eh, input),
            );
        }
        match run_match(&self.options.1, ctx, runner, eh, input) {
            Ok(false) => {},
            other => return other,
        }
        proof {
            lemma_run_bounds::<Inp, V, C>(
                self.options.2,
                input.input,
                ctx.is_in_error_recovery,
                exec_state(ctx, runner.stack@, eh, input),
            );
        }
        match run_match(&self.options.2, ctx, runner, eh, input) {
            Ok(false) => {},
            other => return other,
        }
        proof {
            lemma_run_bounds::<Inp, V, D>(
                self.options.3,
                input.input,
                ctx.is_in_error_recovery,
                exec_state(ctx, runner.stack@, eh, input),
            );
        }
        match run_match(&self.options.3, ctx, runner, eh, input) {
            Ok(false) => run_match(&self.options.4, ctx, runner, eh, input),
            other => other,
        }
    }
}

impl<
    Inp: Input,
    V,
    A: Matcher<Inp, V>,
    B: Matcher<Inp, V>,
    C: Matcher<Inp, V>,
    D: Matcher<Inp, V>,
    E: Matcher<Inp, V>,
    F: Matcher<Inp, V>,
> Matcher<Inp, V> for OneOf<(A, B, C, D, E, F)> {
    open spec fn wf(&self) -> bool {
        self.options.0.wf() && self.options.1.wf() && self.options.2.wf() && self.options.3.wf() && self.options.4.wf() && self.options.5.wf()
    }

    open spec fn spec_label(&self) -> Option<Seq<char>> {
        None
    }

    open spec fn spec_match(&self, inp: Inp, rec: bool, s: State<V>) -> (Outcome<bool>, State<V>) {
        let (o1, s1) = spec_run::<Inp, V, A>(self.options.0, inp, rec, s);
        match o1 {
            Outcome::Done(false) => (OneOf { options: (self.options.1, self.options.2, self.options.3, self.options.4, self.options.5) }).spec_match(inp, rec, s1),
            _ => (o1, s1),
        }
    }

    proof fn lemma_match_bounds(&self, inp: Inp, rec: bool, s: State<V>) {
        lemma_run_bounds::<Inp, V, A>(self.options.0, inp, rec, s);
        let (o1, s1) = spec_run::<Inp, V, A>(self.options.0, inp, rec, s);
        if o1 == Outcome::<bool>::Done(false) {
            let rest = OneOf { options: (self.options.1, self.options.2, self.options.3, self.options.4, self.options.5) };
            rest.lemma_match_bounds(inp, rec, s1);
            lemma_grows_trans(s, s1, rest.spec_match(inp, rec, s1).1);
        }
    }

    proof fn lemma_match_handler_blind(&self, inp: Inp, rec: bool, s: State<V>, eh2: HandlerModel) {
        lemma_run_bounds::<Inp, V, A>(self.options.0, inp, rec, s);
        lemma_run_handler_blind::<Inp, V, A>(self.options.0, inp, rec, s, eh2);
        lemma_run_handler_blind::<Inp, V, A>(self.options.0, inp, rec, s.with_eh(eh2), s.eh);
        let (o1, s1) = spec_run::<Inp, V, A>(self.options.0, inp, rec, s);
        let (o1b, s1b) = spec_run::<Inp, V, A>(self.options.0, inp, rec, s.with_eh(eh2));
        if o1 == Outcome::<bool>::Done(false) {
            let e = if o1b == Outcome::<bool>::Done(false) { s1b.eh } else { s1.eh };
            if o1b == Outcome::<bool>::Done(false) {
                assert(s1b == s1.with_eh(s1b.eh));
            }
            (OneOf { options: (self.options.1, self.options.2, self.options.3, self.options.4, self.options.5) }).lemma_match_handler_blind(inp, rec, s1, e);
        }
    }

    fn maybe_label(&self) -> (l: Option<String>) {
        None
    }

    #[verifier::rlimit(50)]
    fn match_with_runner<EH: ErrorHandler>(
        &self,
        ctx: &mut ParserContext<V>,
        runner: &mut NoMemoizeBacktrackingRunner<V>,
        eh: &mut EH,
        input: &mut InputStream<Inp>,
    ) -> (r: Result<bool, MatcherRunError>) {
        proof {
            lemma_run_bounds::<Inp, V, A>(
                self.options.0,
                input.input,
                ctx.is_in_error_recovery,
                exec_state(ctx, runner.stack@, eh, input),
            );
        }
        match run_match(&self.options.0, ctx, runner, eh, input) {
            Ok(false) => {},
            other => return other,
        }
        proof {
            lemma_run_bounds::<Inp, V, B>(
                self.options.1,
                input.input,
                ctx.is_in_error_recovery,
                exec_state(ctx, runner.stack@, eh, input),
            );
        }
        match run_match(&self.options.1, ctx, runner, eh, input) {
            Ok(false) => {},
            other => return other,
        }
        proof {
            lemma_run_bounds::<Inp, V, C>(
                self.options.2,
                input.input,
                ctx.is_in_error_recovery,
                exec_state(ctx, runner.stack@, eh, input),
            );
        }
        match run_match(&self.options.2, ctx, runner, eh, input) {
            Ok(false) => {},
            other => return other,
        }
        proof {
            lemma_run_bounds::<Inp, V, D>(
                self.options.3,
                input.input,
                ctx.is_in_error_recovery,
                exec_state(ctx, runner.stack@, eh, input),
            );
        }
        match run_match(&self.options.3, ctx, runner, eh, input) {
            Ok(false) => {},
            other => return other,
        }
        proof {
            lemma_run_bounds::<Inp, V, E>(
                self.options.4,
                input.input,
                ctx.is_in_error_recovery,
                exec_state(ctx, runner.stack@, eh, input),
            );
        }
        match run_match(&self.options.4, ctx, runner, eh, input) {
            Ok(false) => run_match(&self.options.5, ctx, runner, eh, input),
            other => other,
        }
    }
}

impl<
    Inp: Input,
    V,
    A: Matcher<Inp, V>,
    B: Matcher<Inp, V>,
    C: Matcher<Inp, V>,
    D: Matcher<Inp, V>,
    E: Matcher<Inp, V>,
    F: Matcher<Inp, V>,
    G: Matcher<Inp, V>,
> Matcher<Inp, V> for OneOf<(A, B, C, D, E, F, G)> {
    open spec fn wf(&self) -> bool {
        self.options.0.wf() && self.options.1.wf() && self.options.2.wf() && self.options.3.wf() && self.options.4.wf() && self.options.5.wf() && self.options.6.wf()
    }

    open spec fn spec_label(&self) -> Option<Seq<char>> {
        None
    }

    open spec fn spec_match(&self, inp: Inp, rec: bool, s: State<V>) -> (Outcome<bool>, State<V>) {
        let (o1, s1) = spec_run::<Inp, V, A>(self.options.0, inp, rec, s);
        match o1 {
            Outcome::Done(false) => (OneOf { options: (self.options.1, self.options.2, self.options.3, self.options.4, self.options.5, self.options.6) }).spec_match(inp, rec, s1),
            _ => (o1, s1),
        }
    }

    proof fn lemma_match_bounds(&self, inp: Inp, rec: bool, s: State<V>) {
        lemma_run_bounds::<Inp, V, A>(self.options.0, inp, rec, s);
        let (o1, s1) = spec_run::<Inp, V, A>(self.options.0, inp, rec, s);
        if o1 == Outcome::<bool>::Done(false) {
            let rest = OneOf { options: (self.options.1, self.options.2, self.options.3, self.options.4, self.options.5, self.options.6) };
            rest.lemma_match_bounds(inp, rec, s1);
            lemma_grows_trans(s, s1, rest.spec_match(inp, rec, s1).1);
        }
    }

    proof fn lemma_match_handler_blind(&self, inp: Inp, rec: bool, s: State<V>, eh2: HandlerModel) {
        lemma_run_bounds::<Inp, V, A>(self.options.0, inp, rec, s);
        lemma_run_handler_blind::<Inp, V, A>(self.options.0, inp, rec, s, eh2);
        lemma_run_handler_blind::<Inp, V, A>(self.options.0, inp, rec, s.with_eh(eh2), s.eh);
        let (o1, s1) = spec_run::<Inp, V, A>(self.options.0, inp, rec, s);
        let (o1b, s1b) = spec_run::<Inp, V, A>(self.options.0, inp, rec, s.with_eh(eh2));
        if o1 == Outcome::<bool>::Done(false) {
            let e = if o1b == Outcome::<bool>::Done(false) { s1b.eh } else { s1.eh };
            if o1b == Outcome::<bool>::Done(false) {
                assert(s1b == s1.with_eh(s1b.eh));
            }
            (OneOf { options: (self.options.1, self.options.2, self.options.3, self.options.4, self.options.5, self.options.6) }).lemma_match_handler_blind(inp, rec, s1, e);
        }
    }

    fn maybe_label(&self) -> (l: Option<String>) {
        None
    }

    #[verifier::rlimit(50)]
    fn match_with_runner<EH: ErrorHandler>(
        &self,
        ctx: &mut ParserContext<V>,
        runner: &mut NoMemoizeBacktrackingRunner<V>,
        eh: &mut EH,
        input: &mut InputStream<Inp>,
    ) -> (r: Result<bool, MatcherRunError>) {
        proof {
            lemma_run_bounds::<Inp, V, A>(
                self.options.0,
                input.input,
                ctx.is_in_error_recovery,
                exec_state(ctx, runner.stack@, eh, input),
            );
        }
        match run_match(&self.options.0, ctx, runner, eh, input) {
            Ok(false) => {},
            other => return other,
        }
        proof {
            lemma_run_bounds::<Inp, V, B>(
                self.options.1,
                input.input,
                ctx.is_in_error_recovery,
                exec_state(ctx, runner.stack@, eh, input),
            );
        }
        match run_match(&self.options.1, ctx, runner, eh, input) {
            Ok(false) => {},
            other => return other,
        }
        proof {
            lemma_run_bounds::<Inp, V, C>(
                self.options.2,
                input.input,
                ctx.is_in_error_recovery,
                exec_state(ctx, runner.stack@, eh, input),
            );
        }
        match run_match(&self.options.2, ctx, runner, eh, input) {
            Ok(false) => {},
            other => return other,
        }
        proof {
            lemma_run_bounds::<Inp, V, D>(
                self.options.3,
                input.input,
                ctx.is_in_error_recovery,
                exec_state(ctx, runner.stack@, eh, input),
            );
        }
        match run_match(&self.options.3, ctx, runner, eh, input) {
            Ok(false) => {},
            other => return other,
        }
        proof {
            lemma_run_bounds::<Inp, V, E>(
                self.options.4,
                input.input,
                ctx.is_in_error_recovery,
                exec_state(ctx, runner.stack@, eh, input),
            );
        }
        match run_match(&self.options.4, ctx, runner, eh, input) {
            Ok(false) => {},
            other => return other,
        }
        proof {
            lemma_run_bounds::<Inp, V, F>(
                self.options.5,
                input.input,
                ctx.is_in_error_recovery,
                exec_state(ctx, runner.stack@, eh, input),
            );
        }
        match run_match(&self.options.5, ctx, runner, eh, input) {
            Ok(false) => run_match(&self.options.6, ctx, runner, eh, input),
            other => other,
        }
    }
}

impl<
    Inp: Input,
    V,
    A: Matcher<Inp, V>,
    B: Matcher<Inp, V>,
    C: Matcher<Inp, V>,
    D: Matcher<Inp, V>,
    E: Matcher<Inp, V>,
    F: Matcher<Inp, V>,
    G: Matcher<Inp, V>,
    H: Matcher<Inp, V>,
> Matcher<Inp, V> for OneOf<(A, B, C, D, E, F, G, H)> {
    open spec fn wf(&self) -> bool {
        self.options.0.wf() && self.options.1.wf() && self.options.2.wf() && self.options.3.wf() && self.options.4.wf() && self.options.5.wf() && self.options.6.wf() && self.options.7.wf()
    }

    open spec fn spec_label(&self) -> Option<Seq<char>> {
        None
    }

    open spec fn spec_match(&self, inp: Inp, rec: bool, s: State<V>) -> (Outcome<bool>, State<V>) {
        let (o1, s1) = spec_run::<Inp, V, A>(self.options.0, inp, rec, s);
        match o1 {
            Outcome::Done(false) => (OneOf { options: (self.options.1, self.options.2, self.options.3, self.options.4, self.options.5, self.options.6, self.options.7) }).spec_match(inp, rec, s1),
            _ => (o1, s1),
        }
    }

    proof fn lemma_match_bounds(&self, inp: Inp, rec: bool, s: State<V>) {
        lemma_run_bounds::<Inp, V, A>(self.options.0, inp, rec, s);
        let (o1, s1) = spec_run::<Inp, V, A>(self.options.0, inp, rec, s);
        if o1 == Outcome::<bool>::Done(false) {
            let rest = OneOf { options: (self.options.1, self.options.2, self.options.3, self.options.4, self.options.5, self.options.6, self.options.7) };
            rest.lemma_match_bounds(inp, rec, s1);
            lemma_grows_trans(s, s1, rest.spec_match(inp, rec, s1).1);
        }
    }

    proof fn lemma_match_handler_blind(&self, inp: Inp, rec: bool, s: State<V>, eh2: HandlerModel) {
        lemma_run_bounds::<Inp, V, A>(self.options.0, inp, rec, s);
        lemma_run_handler_blind::<Inp, V, A>(self.options.0, inp, rec, s, eh2);
        lemma_run_handler_blind::<Inp, V, A>(self.options.0, inp, rec, s.with_eh(eh2), s.eh);
        let (o1, s1) = spec_run::<Inp, V, A>(self.options.0, inp, rec, s);
        let (o1b, s1b) = spec_run::<Inp, V, A>(self.options.0, inp, rec, s.with_eh(eh2));
        if o1 == Outcome::<bool>::Done(false) {
            let e = if o1b == Outcome::<bool>::Done(false) { s1b.eh } else { s1.eh };
            if o1b == Outcome::<bool>::Done(false) {
                assert(s1b == s1.with_eh(s1b.eh));
            }
            (OneOf { options: (self.options.1, self.options.2, self.options.3, self.options.4, self.options.5, self.options.6, self.options.7) }).lemma_match_handler_blind(inp, rec, s1, e);
        }
    }

    fn maybe_label(&self) -> (l: Option<String>) {
        None
    }

    #[verifier::rlimit(50)]
    fn match_with_runner<EH: ErrorHandler>(
        &self,
        ctx: &mut ParserContext<V>,
        runner: &mut NoMemoizeBacktrackingRunner<V>,
        eh: &mut EH,
        input: &mut InputStream<Inp>,
    ) -> (r: Result<bool, MatcherRunError>) {
        proof {
            lemma_run_bounds::<Inp, V, A>(
                self.options.0,
                input.input,
                ctx.is_in_error_recovery,
                exec_state(ctx, runner.stack@, eh, input),
            );
        }
        match run_match(&self.options.0, ctx, runner, eh, input) {
            Ok(false) => {},
            other => return other,
        }
        proof {
            lemma_run_bounds::<Inp, V, B>(
                self.options.1,
                input.input,
                ctx.is_in_error_recovery,
                exec_state(ctx, runner.stack@, eh, input),
            );
        }
        match run_match(&self.options.1, ctx, runner, eh, input) {
            Ok(false) => {},
            other => return other,
        }
        proof {
            lemma_run_bounds::<Inp, V, C>(
                self.options.2,
                input.input,
                ctx.is_in_error_recovery,
                exec_state(ctx, runner.stack@, eh, input),
            );
        }
        match run_match(&self.options.2, ctx, runner, eh, input) {
            Ok(false) => {},
            other => return other,
        }
        proof {
            lemma_run_bounds::<Inp, V, D>(
                self.options.3,
                input.input,
                ctx.is_in_error_recovery,
                exec_state(ctx, runner.stack@, eh, input),
            );
        }
        match run_match(&self.options.3, ctx, runner, eh, input) {
            Ok(false) => {},
            other => return other,
        }
        proof {
            lemma_run_bounds::<Inp, V, E>(
                self.options.4,
                input.input,
                ctx.is_in_error_recovery,
                exec_state(ctx, runner.stack@, eh, input),
            );
        }
        match run_match(&self.options.4, ctx, runner, eh, input) {
            Ok(false) => {},
            other => return other,
        }
        proof {
            lemma_run_bounds::<Inp, V, F>(
                self.options.5,
                input.input,
                ctx.is_in_error_recovery,
                exec_state(ctx, runner.stack@, eh, input),
            );
        }
        match run_match(&self.options.5, ctx, runner, eh, input) {
            Ok(false) => {},
            other => return other,
        }
        proof {
            lemma_run_bounds::<Inp, V, G>(
                self.options.6,
                input.input,
                ctx.is_in_error_recovery,
                exec_state(ctx, runner.stack@, eh, input),
            );
        }
        match run_match(&self.options.6, ctx, runner, eh, input) {
            Ok(false) => run_match(&self.options.7, ctx, runner, eh, input),
            other => other,
        }
    }
}

impl<
    Inp: Input,
    V,
    A: Matcher<Inp, V>,
    B: Matcher<Inp, V>,
    C: Matcher<Inp, V>,
    D: Matcher<Inp, V>,
    E: Matcher<Inp, V>,
    F: Matcher<Inp, V>,
    G: Matcher<Inp, V>,
    H: Matcher<Inp, V>,
    I: Matcher<Inp, V>,
> Matcher<Inp, V> for OneOf<(A, B, C, D, E, F, G, H, I)> {
    open spec fn wf(&self) -> bool {
        self.options.0.wf() && self.options.1.wf() && self.options.2.wf() && self.options.3.wf() && self.options.4.wf() && self.options.5.wf() && self.options.6.wf() && self.options.7.wf() && self.options.8.wf()
    }

    open spec fn spec_label(&self) -> Option<Seq<char>> {
        None
    }

    open spec fn spec_match(&self, inp: Inp, rec: bool, s: State<V>) -> (Outcome<bool>, State<V>) {
        let (o1, s1) = spec_run::<Inp, V, A>(self.options.0, inp, rec, s);
        match o1 {
            Outcome::Done(false) => (OneOf { options: (self.options.1, self.options.2, self.options.3, self.options.4, self.options.5, self.options.6, self.options.7, self.options.8) }).spec_match(inp, rec, s1),
            _ => (o1, s1),
        }
    }

    proof fn lemma_match_bounds(&self, inp: Inp, rec: bool, s: State<V>) {
        lemma_run_bounds::<Inp, V, A>(self.options.0, inp, rec, s);
        let (o1, s1) = spec_run::<Inp, V, A>(self.options.0, inp, rec, s);
        if o1 == Outcome::<bool>::Done(false) {
            let rest = OneOf { options: (self.options.1, self.options.2, self.options.3, self.options.4, self.options.5, self.options.6, self.options.7, self.options.8) };
            rest.lemma_match_bounds(inp, rec, s1);
            lemma_grows_trans(s, s1, rest.spec_match(inp, rec, s1).1);
        }
    }

    proof fn lemma_match_handler_blind(&self, inp: Inp, rec: bool, s: State<V>, eh2: HandlerModel) {
        lemma_run_bounds::<Inp, V, A>(self.options.0, inp, rec, s);
        lemma_run_handler_blind::<Inp, V, A>(self.options.0, inp, rec, s, eh2);
        lemma_run_handler_blind::<Inp, V, A>(self.options.0, inp, rec, s.with_eh(eh2), s.eh);
        let (o1, s1) = spec_run::<Inp, V, A>(self.options.0, inp, rec, s);
        let (o1b, s1b) = spec_run::<Inp, V, A>(self.options.0, inp, rec, s.with_eh(eh2));
        if o1 == Outcome::<bool>::Done(false) {
            let e = if o1b == Outcome::<bool>::Done(false) { s1b.eh } else { s1.eh };
            if o1b == Outcome::<bool>::Done(false) {
                assert(s1b == s1.with_eh(s1b.eh));
            }
            (OneOf { options: (self.options.1, self.options.2, self.options.3, self.options.4, self.options.5, self.options.6, self.options.7, self.options.8) }).lemma_match_handler_blind(inp, rec, s1, e);
        }
    }

    fn maybe_label(&self) -> (l: Option<String>) {
        None
    }

    #[verifier::rlimit(50)]
    fn match_with_runner<EH: ErrorHandler>(
        &self,
        ctx: &mut ParserContext<V>,
        runner: &mut NoMemoizeBacktrackingRunner<V>,
        eh: &mut EH,
        input: &mut InputStream<Inp>,
    ) -> (r: Result<bool, MatcherRunError>) {
        proof {
            lemma_run_bounds::<Inp, V, A>(
                self.options.0,
                input.input,
                ctx.is_in_error_recovery,
                exec_state(ctx, runner.stack@, eh, input),
            );
        }
        match run_match(&self.options.0, ctx, runner, eh, input) {
            Ok(false) => {},
            other => return other,
        }
        proof {
            lemma_run_bounds::<Inp, V, B>(
                self.options.1,
                input.input,
                ctx.is_in_error_recovery,
                exec_state(ctx, runner.stack@, eh, input),
            );
        }
        match run_match(&self.options.1, ctx, runner, eh, input) {
            Ok(false) => {},
            other => return other,
        }
        proof {
            lemma_run_bounds::<Inp, V, C>(
                self.options.2,
                input.input,
                ctx.is_in_error_recovery,
                exec_state(ctx, runner.stack@, eh, input),
            );
        }
        match run_match(&self.options.2, ctx, runner, eh, input) {
            Ok(false) => {},
            other => return other,
        }
        proof {
            lemma_run_bounds::<Inp, V, D>(
                self.options.3,
                input.input,
                ctx.is_in_error_recovery,
                exec_state(ctx, runner.stack@, eh, input),
            );
        }
        match run_match(&self.options.3, ctx, runner, eh, input) {
            Ok(false) => {},
            other => return other,
        }
        proof {
            lemma_run_bounds::<Inp, V, E>(
                self.options.4,
                input.input,
                ctx.is_in_error_recovery,
                exec_state(ctx, runner.stack@, eh, input),
            );
        }
        match run_match(&self.options.4, ctx, runner, eh, input) {
            Ok(false) => {},
            other => return other,
        }
        proof {
            lemma_run_bounds::<Inp, V, F>(
                self.options.5,
                input.input,
                ctx.is_in_error_recovery,
                exec_state(ctx, runner.stack@, eh, input),
            );
        }
        match run_match(&self.options.5, ctx, runner, eh, input) {
            Ok(false) => {},
            other => return other,
        }
        proof {
            lemma_run_bounds::<Inp, V, G>(
                self.options.6,
                input.input,
                ctx.is_in_error_recovery,
                exec_state(ctx, runner.stack@, eh, input),
            );
        }
        match run_match(&self.options.6, ctx, runner, eh, input) {
            Ok(false) => {},
            other => return other,
        }
        proof {
            lemma_run_bounds::<Inp, V, H>(
                self.options.7,
                input.input,
                ctx.is_in_error_recovery,
                exec_state(ctx, runner.stack@, eh, input),
            );
        }
        match run_match(&self.options.7, ctx, runner, eh, input) {
            Ok(false) => run_match(&self.options.8, ctx, runner, eh, input),
            other => other,
        }
    }
}

impl<
    Inp: Input,
    V,
    A: Matcher<Inp, V>,
    B: Matcher<Inp, V>,
    C: Matcher<Inp, V>,
    D: Matcher<Inp, V>,
    E: Matcher<Inp, V>,
    F: Matcher<Inp, V>,
    G: Matcher<Inp, V>,
    H: Matcher<Inp, V>,
    I: Matcher<Inp, V>,
    J: Matcher<Inp, V>,
> Matcher<Inp, V> for OneOf<(A, B, C, D, E, F, G, H, I, J)> {
    open spec fn wf(&self) -> bool {
        self.options.0.wf() && self.options.1.wf() && self.options.2.wf() && self.options.3.wf() && self.options.4.wf() && self.options.5.wf() && self.options.6.wf() && self.options.7.wf() && self.options.8.wf() && self.options.9.wf()
    }

    open spec fn spec_label(&self) -> Option<Seq<char>> {
        None
    }

    open spec fn spec_match(&self, inp: Inp, rec: bool, s: State<V>) -> (Outcome<bool>, State<V>) {
        let (o1, s1) = spec_run::<Inp, V, A>(self.options.0, inp, rec, s);
        match o1 {
            Outcome::Done(false) => (OneOf { options: (self.options.1, self.options.2, self.options.3, self.options.4, self.options.5, self.options.6, self.options.7, self.options.8, self.options.9) }).spec_match(inp, rec, s1),
            _ => (o1, s1),
        }
    }

    proof fn lemma_match_bounds(&self, inp: Inp, rec: bool, s: State<V>) {
        lemma_run_bounds::<Inp, V, A>(self.options.0, inp, rec, s);
        let (o1, s1) = spec_run::<Inp, V, A>(self.options.0, inp, rec, s);
        if o1 == Outcome::<bool>::Done(false) {
            let rest = OneOf { options: (self.options.1, self.options.2, self.options.3, self.options.4, self.options.5, self.options.6, self.options.7, self.options.8, self.options.9) };
            rest.lemma_match_bounds(inp, rec, s1);
            lemma_grows_trans(s, s1, rest.spec_match(inp, rec, s1).1);
        }
    }

    proof fn lemma_match_handler_blind(&self, inp: Inp, rec: bool, s: State<V>, eh2: HandlerModel) {
        lemma_run_bounds::<Inp, V, A>(self.options.0, inp, rec, s);
        lemma_run_handler_blind::<Inp, V, A>(self.options.0, inp, rec, s, eh2);
        lemma_run_handler_blind::<Inp, V, A>(self.options.0, inp, rec, s.with_eh(eh2), s.eh);
        let (o1, s1) = spec_run::<Inp, V, A>(self.options.0, inp, rec, s);
        let (o1b, s1b) = spec_run::<Inp, V, A>(self.options.0, inp, rec, s.with_eh(eh2));
        if o1 == Outcome::<bool>::Done(false) {
            let e = if o1b == Outcome::<bool>::Done(false) { s1b.eh } else { s1.eh };
            if o1b == Outcome::<bool>::Done(false) {
                assert(s1b == s1.with_eh(s1b.eh));
            }
            (OneOf { options: (self.options.1, self.options.2, self.options.3, self.options.4, self.options.5, self.options.6, self.options.7, self.options.8, self.options.9) }).lemma_match_handler_blind(inp, rec, s1, e);
        }
    }

    fn maybe_label(&self) -> (l: Option<String>) {
        None
    }

    #[verifier::rlimit(50)]
    fn match_with_runner<EH: ErrorHandler>(
        &self,
        ctx: &mut ParserContext<V>,
        runner: &mut NoMemoizeBacktrackingRunner<V>,
        eh: &mut EH,
        input: &mut InputStream<Inp>,
    ) -> (r: Result<bool, MatcherRunError>) {
        proof {
            lemma_run_bounds::<Inp, V, A>(
                self.options.0,
                input.input,
                ctx.is_in_error_recovery,
                exec_state(ctx, runner.stack@, eh, input),
            );
        }
        match run_match(&self.options.0, ctx, runner, eh, input) {
            Ok(false) => {},
            other => return other,
        }
        proof {
            lemma_run_bounds::<Inp, V, B>(
                self.options.1,
                input.input,
                ctx.is_in_error_recovery,
                exec_state(ctx, runner.stack@, eh, input),
            );
        }
        match run_match(&self.options.1, ctx, runner, eh, input) {
            Ok(false) => {},
            other => return other,
        }
        proof {
            lemma_run_bounds::<Inp, V, C>(
                self.options.2,
                input.input,
                ctx.is_in_error_recovery,
                exec_state(ctx, runner.stack@, eh, input),
            );
        }
        match run_match(&self.options.2, ctx, runner, eh, input) {
            Ok(false) => {},
            other => return other,
        }
        proof {
            lemma_run_bounds::<Inp, V, D>(
                self.options.3,
                input.input,
                ctx.is_in_error_recovery,
                exec_state(ctx, runner.stack@, eh, input),
            );
        }
        match run_match(&self.options.3, ctx, runner, eh, input) {
            Ok(false) => {},
            other => return other,
        }
        proof {
            lemma_run_bounds::<Inp, V, E>(
                self.options.4,
                input.input,
                ctx.is_in_error_recovery,
                exec_state(ctx, runner.stack@, eh, input),
            );
        }
        match run_match(&self.options.4, ctx, runner, eh, input) {
            Ok(false) => {},
            other => return other,
        }
        proof {
            lemma_run_bounds::<Inp, V, F>(
                self.options.5,
                input.input,
                ctx.is_in_error_recovery,
                exec_state(ctx, runner.stack@, eh, input),
            );
        }
        match run_match(&self.options.5, ctx, runner, eh, input) {
            Ok(false) => {},
            other => return other,
        }
        proof {
            lemma_run_bounds::<Inp, V, G>(
                self.options.6,
                input.input,
                ctx.is_in_error_recovery,
                exec_state(ctx, runner.stack@, eh, input),
            );
        }
        match run_match(&self.options.6, ctx, runner, eh, input) {
            Ok(false) => {},
            other => return other,
        }
        proof {
            lemma_run_bounds::<Inp, V, H>(
                self.options.7,
                input.input,
                ctx.is_in_error_recovery,
                exec_state(ctx, runner.stack@, eh, input),
            );
        }
        match run_match(&self.options.7, ctx, runner, eh, input) {
            Ok(false) => {},
            other => return other,
        }
        proof {
            lemma_run_bounds::<Inp, V, I>(
                self.options.8,
                input.input,
                ctx.is_in_error_recovery,
                exec_state(ctx, runner.stack@, eh, input),
            );
        }
        match run_match(&self.options.8, ctx, runner, eh, input) {
            Ok(false) => run_match(&self.options.9, ctx, runner, eh, input),
            other => other,
        }
    }
}

impl<
    Inp: Input,
    V,
    A: Matcher<Inp, V>,
    B: Matcher<Inp, V>,
    C: Matcher<Inp, V>,
    D: Matcher<Inp, V>,
    E: Matcher<Inp, V>,
    F: Matcher<Inp, V>,
    G: Matcher<Inp, V>,
    H: Matcher<Inp, V>,
    I: Matcher<Inp, V>,
    J: Matcher<Inp, V>,
    K: Matcher<Inp, V>,
> Matcher<Inp, V> for OneOf<(A, B, C, D, E, F, G, H, I, J, K)> {
    open spec fn wf(&self) -> bool {
        self.options.0.wf() && self.options.1.wf() && self.options.2.wf() && self.options.3.wf() && self.options.4.wf() && self.options.5.wf() && self.options.6.wf() && self.options.7.wf() && self.options.8.wf() && self.options.9.wf() && self.options.10.wf()
    }

    open spec fn spec_label(&self) -> Option<Seq<char>> {
        None
    }

    open spec fn spec_match(&self, inp: Inp, rec: bool, s: State<V>) -> (Outcome<bool>, State<V>) {
        let (o1, s1) = spec_run::<Inp, V, A>(self.options.0, inp, rec, s);
        match o1 {
            Outcome::Done(false) => (OneOf { options: (self.options.1, self.options.2, self.options.3, self.options.4, self.options.5, self.options.6, self.options.7, self.options.8, self.options.9, self.options.10) }).spec_match(inp, rec, s1),
            _ => (o1, s1),
        }
    }

    proof fn lemma_match_bounds(&self, inp: Inp, rec: bool, s: State<V>) {
        lemma_run_bounds::<Inp, V, A>(self.options.0, inp, rec, s);
        let (o1, s1) = spec_run::<Inp, V, A>(self.options.0, inp, rec, s);
        if o1 == Outcome::<bool>::Done(false) {
            let rest = OneOf { options: (self.options.1, self.options.2, self.options.3, self.options.4, self.options.5, self.options.6, self.options.7, self.options.8, self.options.9, self.options.10) };
            rest.lemma_match_bounds(inp, rec, s1);
            lemma_grows_trans(s, s1, rest.spec_match(inp, rec, s1).1);
        }
    }

    proof fn lemma_match_handler_blind(&self, inp: Inp, rec: bool, s: State<V>, eh2: HandlerModel) {
        lemma_run_bounds::<Inp, V, A>(self.options.0, inp, rec, s);
        lemma_run_handler_blind::<Inp, V, A>(self.options.0, inp, rec, s, eh2);
        lemma_run_handler_blind::<Inp, V, A>(self.options.0, inp, rec, s.with_eh(eh2), s.eh);
        let (o1, s1) = spec_run::<Inp, V, A>(self.options.0, inp, rec, s);
        let (o1b, s1b) = spec_run::<Inp, V, A>(self.options.0, inp, rec, s.with_eh(eh2));
        if o1 == Outcome::<bool>::Done(false) {
            let e = if o1b == Outcome::<bool>::Done(false) { s1b.eh } else { s1.eh };
            if o1b == Outcome::<bool>::Done(false) {
                assert(s1b == s1.with_eh(s1b.eh));
            }
            (OneOf { options: (self.options.1, self.options.2, self.options.3, self.options.4, self.options.5, self.options.6, self.options.7, self.options.8, self.options.9, self.options.10) }).lemma_match_handler_blind(inp, rec, s1, e);
        }
    }

    fn maybe_label(&self) -> (l: Option<String>) {
        None
    }

    #[verifier::rlimit(50)]
    fn match_with_runner<EH: ErrorHandler>(
        &self,
        ctx: &mut ParserContext<V>,
        runner: &mut NoMemoizeBacktrackingRunner<V>,
        eh: &mut EH,
        input: &mut InputStream<Inp>,
    ) -> (r: Result<bool, MatcherRunError>) {
        proof {
            lemma_run_bounds::<Inp, V, A>(
                self.options.0,
                input.input,
                ctx.is_in_error_recovery,
                exec_state(ctx, runner.stack@, eh, input),
            );
        }
        match run_match(&self.options.0, ctx, runner, eh, input) {
            Ok(false) => {},
            other => return other,
        }
        proof {
            lemma_run_bounds::<Inp, V, B>(
                self.options.1,
                input.input,
                ctx.is_in_error_recovery,
                exec_state(ctx, runner.stack@, eh, input),
            );
        }
        match run_match(&self.options.1, ctx, runner, eh, input) {
            Ok(false) => {},
            other => return other,
        }
        proof {
            lemma_run_bounds::<Inp, V, C>(
                self.options.2,
                input.input,
                ctx.is_in_error_recovery,
                exec_state(ctx, runner.stack@, eh, input),
            );
        }
        match run_match(&self.options.2, ctx, runner, eh, input) {
            Ok(false) => {},
            other => return other,
        }
        proof {
            lemma_run_bounds::<Inp, V, D>(
                self.options.3,
                input.input,
                ctx.is_in_error_recovery,
                exec_state(ctx, runner.stack@, eh, input),
            );
        }
        match run_match(&self.options.3, ctx, runner, eh, input) {
            Ok(false) => {},
            other => return other,
        }
        proof {
            lemma_run_bounds::<Inp, V, E>(
                self.options.4,
                input.input,
                ctx.is_in_error_recovery,
                exec_state(ctx, runner.stack@, eh, input),
            );
        }
        match run_match(&self.options.4, ctx, runner, eh, input) {
            Ok(false) => {},
            other => return other,
        }
        proof {
            lemma_run_bounds::<Inp, V, F>(
                self.options.5,
                input.input,
                ctx.is_in_error_recovery,
                exec_state(ctx, runner.stack@, eh, input),
            );
        }
        match run_match(&self.options.5, ctx, runner, eh, input) {
            Ok(false) => {},
            other => return other,
        }
        proof {
            lemma_run_bounds::<Inp, V, G>(
                self.options.6,
                input.input,
                ctx.is_in_error_recovery,
                exec_state(ctx, runner.stack@, eh, input),
            );
        }
        match run_match(&self.options.6, ctx, runner, eh, input) {
            Ok(false) => {},
            other => return other,
        }
        proof {
            lemma_run_bounds::<Inp, V, H>(
                self.options.7,
                input.input,
                ctx.is_in_error_recovery,
                exec_state(ctx, runner.stack@, eh, input),
            );
        }
        match run_match(&self.options.7, ctx, runner, eh, input) {
            Ok(false) => {},
            other => return other,
        }
        proof {
            lemma_run_bounds::<Inp, V, I>(
                self.options.8,
                input.input,
                ctx.is_in_error_recovery,
                exec_state(ctx, runner.stack@, eh, input),
            );
        }
        match run_match(&self.options.8, ctx, runner, eh, input) {
            Ok(false) => {},
            other => return other,
        }
        proof {
            lemma_run_bounds::<Inp, V, J>(
                self.options.9,
                input.input,
                ctx.is_in_error_recovery,
                exec_state(ctx, runner.stack@, eh, input),
            );
        }
        match run_match(&self.options.9, ctx, runner, eh, input) {
            Ok(false) => run_match(&self.options.10, ctx, runner, eh, input),
            other => other,
        }
    }
}

impl<
    Inp: Input,
    V,
    A: Matcher<Inp, V>,
    B: Matcher<Inp, V>,
    C: Matcher<Inp, V>,
    D: Matcher<Inp, V>,
    E: Matcher<Inp, V>,
    F: Matcher<Inp, V>,
    G: Matcher<Inp, V>,
    H: Matcher<Inp, V>,
    I: Matcher<Inp, V>,
    J: Matcher<Inp, V>,
    K: Matcher<Inp, V>,
    L: Matcher<Inp, V>,
> Matcher<Inp, V> for OneOf<(A, B, C, D, E, F, G, H, I, J, K, L)> {
    open spec fn wf(&self) -> bool {
        self.options.0.wf() && self.options.1.wf() && self.options.2.wf() && self.options.3.wf() && self.options.4.wf() && self.options.5.wf() && self.options.6.wf() && self.options.7.wf() && self.options.8.wf() && self.options.9.wf() && self.options.10.wf() && self.options.11.wf()
    }

    open spec fn spec_label(&self) -> Option<Seq<char>> {
        None
    }

    open spec fn spec_match(&self, inp: Inp, rec: bool, s: State<V>) -> (Outcome<bool>, State<V>) {
        let (o1, s1) = spec_run::<Inp, V, A>(self.options.0, inp, rec, s);
        match o1 {
            Outcome::Done(false) => (OneOf { options: (self.options.1, self.options.2, self.options.3, self.options.4, self.options.5, self.options.6, self.options.7, self.options.8, self.options.9, self.options.10, self.options.11) }).spec_match(inp, rec, s1),
            _ => (o1, s1),
        }
    }

    proof fn lemma_match_bounds(&self, inp: Inp, rec: bool, s: State<V>) {
        lemma_run_bounds::<Inp, V, A>(self.options.0, inp, rec, s);
        let (o1, s1) = spec_run::<Inp, V, A>(self.options.0, inp, rec, s);
        if o1 == Outcome::<bool>::Done(false) {
            let rest = OneOf { options: (self.options.1, self.options.2, self.options.3, self.options.4, self.options.5, self.options.6, self.options.7, self.options.8, self.options.9, self.options.10, self.options.11) };
            rest.lemma_match_bounds(inp, rec, s1);
            lemma_grows_trans(s, s1, rest.spec_match(inp, rec, s1).1);
        }
    }

    proof fn lemma_match_handler_blind(&self, inp: Inp, rec: bool, s: State<V>, eh2: HandlerModel) {
        lemma_run_bounds::<Inp, V, A>(self.options.0, inp, rec, s);
        lemma_run_handler_blind::<Inp, V, A>(self.options.0, inp, rec, s, eh2);
        lemma_run_handler_blind::<Inp, V, A>(self.options.0, inp, rec, s.with_eh(eh2), s.eh);
        let (o1, s1) = spec_run::<Inp, V, A>(self.options.0, inp, rec, s);
        let (o1b, s1b) = spec_run::<Inp, V, A>(self.options.0, inp, rec, s.with_eh(eh2));
        if o1 == Outcome::<bool>::Done(false) {
            let e = if o1b == Outcome::<bool>::Done(false) { s1b.eh } else { s1.eh };
            if o1b == Outcome::<bool>::Done(false) {
                assert(s1b == s1.with_eh(s1b.eh));
            }
            (OneOf { options: (self.options.1, self.options.2, self.options.3, self.options.4, self.options.5, self.options.6, self.options.7, self.options.8, self.options.9, self.options.10, self.options.11) }).lemma_match_handler_blind(inp, rec, s1, e);
        }
    }

    fn maybe_label(&self) -> (l: Option<String>) {
        None
    }

    #[verifier::rlimit(50)]
    fn match_with_runner<EH: ErrorHandler>(
        &self,
        ctx: &mut ParserContext<V>,
        runner: &mut NoMemoizeBacktrackingRunner<V>,
        eh: &mut EH,
        input: &mut InputStream<Inp>,
    ) -> (r: Result<bool, MatcherRunError>) {
        proof {
            lemma_run_bounds::<Inp, V, A>(
                self.options.0,
                input.input,
                ctx.is_in_error_recovery,
                exec_state(ctx, runner.stack@, eh, input),
            );
        }
        match run_match(&self.options.0, ctx, runner, eh, input) {
            Ok(false) => {},
            other => return other,
        }
        proof {
            lemma_run_bounds::<Inp, V, B>(
                self.options.1,
                input.input,
                ctx.is_in_error_recovery,
                exec_state(ctx, runner.stack@, eh, input),
            );
        }
        match run_match(&self.options.1, ctx, runner, eh, input) {
            Ok(false) => {},
            other => return other,
        }
        proof {
            lemma_run_bounds::<Inp, V, C>(
                self.options.2,
                input.input,
                ctx.is_in_error_recovery,
                exec_state(ctx, runner.stack@, eh, input),
            );
        }
        match run_match(&self.options.2, ctx, runner, eh, input) {
            Ok(false) => {},
            other => return other,
        }
        proof {
            lemma_run_bounds::<Inp, V, D>(
                self.options.3,
                input.input,
                ctx.is_in_error_recovery,
                exec_state(ctx, runner.stack@, eh, input),
            );
        }
        match run_match(&self.options.3, ctx, runner, eh, input) {
            Ok(false) => {},
            other => return other,
        }
        proof {
            lemma_run_bounds::<Inp, V, E>(
                self.options.4,
                input.input,
                ctx.is_in_error_recovery,
                exec_state(ctx, runner.stack@, eh, input),
            );
        }
        match run_match(&self.options.4, ctx, runner, eh, input) {
            Ok(false) => {},
            other => return other,
        }
        proof {
            lemma_run_bounds::<Inp, V, F>(
                self.options.5,
                input.input,
                ctx.is_in_error_recovery,
                exec_state(ctx, runner.stack@, eh, input),
            );
        }
        match run_match(&self.options.5, ctx, runner, eh, input) {
            Ok(false) => {},
            other => return other,
        }
        proof {
            lemma_run_bounds::<Inp, V, G>(
                self.options.6,
                input.input,
                ctx.is_in_error_recovery,
                exec_state(ctx, runner.stack@, eh, input),
            );
        }
        match run_match(&self.options.6, ctx, runner, eh, input) {
            Ok(false) => {},
            other => return other,
        }
        proof {
            lemma_run_bounds::<Inp, V, H>(
                self.options.7,
                input.input,
                ctx.is_in_error_recovery,
                exec_state(ctx, runner.stack@, eh, input),
            );
        }
        match run_match(&self.options.7, ctx, runner, eh, input) {
            Ok(false) => {},
            other => return other,
        }
        proof {
            lemma_run_bounds::<Inp, V, I>(
                self.options.8,
                input.input,
                ctx.is_in_error_recovery,
                exec_state(ctx, runner.stack@, eh, input),
            );
        }
        match run_match(&self.options.8, ctx, runner, eh, input) {
            Ok(false) => {},
            other => return other,
        }
        proof {
            lemma_run_bounds::<Inp, V, J>(
                self.options.9,
                input.input,
                ctx.is_in_error_recovery,
                exec_state(ctx, runner.stack@, eh, input),
            );
        }
        match run_match(&self.options.9, ctx, runner, eh, input) {
            Ok(false) => {},
            other => return other,
        }
        proof {
            lemma_run_bounds::<Inp, V, K>(
                self.options.10,
                input.input,
                ctx.is_in_error_recovery,
                exec_state(ctx, runner.stack@, eh, input),
            );
        }
        match run_match(&self.options.10, ctx, runner, eh, input) {
            Ok(false) => run_match(&self.options.11, ctx, runner, eh, input),
            other => other,
        }
    }
}


/// A choice of one alternative is that alternative's run.
pub proof fn lemma_one_of1_order<Inp: Input, V, A: Matcher<Inp, V>>(m: OneOf<(A,)>, inp: Inp, rec: bool, s: State<V>)
    ensures
        <OneOf<(A,)> as Matcher<Inp, V>>::spec_match(&m, inp, rec, s) == spec_run::<Inp, V, A>(
            m.options.0,
            inp,
            rec,
            s,
        ),
{
}

/// A choice of 2 alternatives runs the first alternative first: where it does not miss,
/// its outcome and state are the choice's; only where it misses are the other alternatives
/// tried, in order, from the state it left.
pub proof fn lemma_one_of2_order<Inp: Input, V, A: Matcher<Inp, V>, B: Matcher<Inp, V>>(m: OneOf<(A, B)>, inp: Inp, rec: bool, s: State<V>)
    ensures
        ({
            let (o1, s1) = spec_run::<Inp, V, A>(m.options.0, inp, rec, s);
            let r = <OneOf<(A, B)> as Matcher<Inp, V>>::spec_match(&m, inp, rec, s);
            &&& o1 == Outcome::<bool>::Done(false) ==> r == spec_run::<Inp, V, B>(m.options.1, inp, rec, s1)
            &&& o1 != Outcome::<bool>::Done(false) ==> r == (o1, s1)
        }),
{
}

/// A choice of 3 alternatives runs the first alternative first: where it does not miss,
/// its outcome and state are the choice's; only where it misses are the other alternatives
/// tried, in order, from the state it left.
pub proof fn lemma_one_of3_order<Inp: Input, V, A: Matcher<Inp, V>, B: Matcher<Inp, V>, C: Matcher<Inp, V>>(m: OneOf<(A, B, C)>, inp: Inp, rec: bool, s: State<V>)
    ensures
        ({
            let (o1, s1) = spec_run::<Inp, V, A>(m.options.0, inp, rec, s);
            let r = <OneOf<(A, B, C)> as Matcher<Inp, V>>::spec_match(&m, inp, rec, s);
            &&& o1 == Outcome::<bool>::Done(false) ==> r == <OneOf<(B, C)> as Matcher<Inp, V>>::spec_match(&OneOf { options: (m.options.1, m.options.2) }, inp, rec, s1)
            &&& o1 != Outcome::<bool>::Done(false) ==> r == (o1, s1)
        }),
{
}

/// A choice of 4 alternatives runs the first alternative first: where it does not miss,
/// its outcome and state are the choice's; only where it misses are the other alternatives
/// tried, in order, from the state it left.
pub proof fn lemma_one_of4_order<Inp: Input, V, A: Matcher<Inp, V>, B: Matcher<Inp, V>, C: Matcher<Inp, V>, D: Matcher<Inp, V>>(m: OneOf<(A, B, C, D)>, inp: Inp, rec: bool, s: State<V>)
    ensures
        ({
            let (o1, s1) = spec_run::<Inp, V, A>(m.options.0, inp, rec, s);
            let r = <OneOf<(A, B, C, D)> as Matcher<Inp, V>>::spec_match(&m, inp, rec, s);
            &&& o1 == Outcome::<bool>::Done(false) ==> r == <OneOf<(B, C, D)> as Matcher<Inp, V>>::spec_match(&OneOf { options: (m.options.1, m.options.2, m.options.3) }, inp, rec, s1)
            &&& o1 != Outcome::<bool>::Done(false) ==> r == (o1, s1)
        }),
{
}

/// A choice of 5 alternatives runs the first alternative first: where it does not miss,
/// its outcome and state are the choice's; only where it misses are the other alternatives
/// tried, in order, from the state it left.
pub proof fn lemma_one_of5_order<Inp: Input, V, A: Matcher<Inp, V>, B: Matcher<Inp, V>, C: Matcher<Inp, V>, D: Matcher<Inp, V>, E: Matcher<Inp, V>>(m: OneOf<(A, B, C, D, E)>, inp: Inp, rec: bool, s: State<V>)
    ensures
        ({
            let (o1, s1) = spec_run::<Inp, V, A>(m.options.0, inp, rec, s);
            let r = <OneOf<(A, B, C, D, E)> as Matcher<Inp, V>>::spec_match(&m, inp, rec, s);
            &&& o1 == Outcome::<bool>::Done(false) ==> r == <OneOf<(B, C, D, E)> as Matcher<Inp, V>>::spec_match(&OneOf { options: (m.options.1, m.options.2, m.options.3, m.options.4) }, inp, rec, s1)
            &&& o1 != Outcome::<bool>::Done(false) ==> r == (o1, s1)
        }),
{
}

/// A choice of 6 alternatives runs the first alternative first: where it does not miss,
/// its outcome and state are the choice's; only where it misses are the other alternatives
/// tried, in order, from the state it left.
pub proof fn lemma_one_of6_order<Inp: Input, V, A: Matcher<Inp, V>, B: Matcher<Inp, V>, C: Matcher<Inp, V>, D: Matcher<Inp, V>, E: Matcher<Inp, V>, F: Matcher<Inp, V>>(m: OneOf<(A, B, C, D, E, F)>, inp: Inp, rec: bool, s: State<V>)
    ensures
        ({
            let (o1, s1) = spec_run::<Inp, V, A>(m.options.0, inp, rec, s);
            let r = <OneOf<(A, B, C, D, E, F)> as Matcher<Inp, V>>::spec_match(&m, inp, rec, s);
            &&& o1 == Outcome::<bool>::Done(false) ==> r == <OneOf<(B, C, D, E, F)> as Matcher<Inp, V>>::spec_match(&OneOf { options: (m.options.1, m.options.2, m.options.3, m.options.4, m.options.5) }, inp, rec, s1)
            &&& o1 != Outcome::<bool>::Done(false) ==> r == (o1, s1)
        }),
{
}

/// A choice of 7 alternatives runs the first alternative first: where it does not miss,
/// its outcome and state are the choice's; only where it misses are the other alternatives
/// tried, in order, from the state it left.
pub proof fn lemma_one_of7_order<Inp: Input, V, A: Matcher<Inp, V>, B: Matcher<Inp, V>, C: Matcher<Inp, V>, D: Matcher<Inp, V>, E: Matcher<Inp, V>, F: Matcher<Inp, V>, G: Matcher<Inp, V>>(m: OneOf<(A, B, C, D, E, F, G)>, inp: Inp, rec: bool, s: State<V>)
    ensures
        ({
            let (o1, s1) = spec_run::<Inp, V, A>(m.options.0, inp, rec, s);
            let r = <OneOf<(A, B, C, D, E, F, G)> as Matcher<Inp, V>>::spec_match(&m, inp, rec, s);
            &&& o1 == Outcome::<bool>::Done(false) ==> r == <OneOf<(B, C, D, E, F, G)> as Matcher<Inp, V>>::spec_match(&OneOf { options: (m.options.1, m.options.2, m.options.3, m.options.4, m.options.5, m.options.6) }, inp, rec, s1)
            &&& o1 != Outcome::<bool>::Done(false) ==> r == (o1, s1)
        }),
{
}

/// A choice of 8 alternatives runs the first alternative first: where it does not miss,
/// its outcome and state are the choice's; only where it misses are the other alternatives
/// tried, in order, from the state it left.
pub proof fn lemma_one_of8_order<Inp: Input, V, A: Matcher<Inp, V>, B: Matcher<Inp, V>, C: Matcher<Inp, V>, D: Matcher<Inp, V>, E: Matcher<Inp, V>, F: Matcher<Inp, V>, G: Matcher<Inp, V>, H: Matcher<Inp, V>>(m: OneOf<(A, B, C, D, E, F, G, H)>, inp: Inp, rec: bool, s: State<V>)
    ensures
        ({
            let (o1, s1) = spec_run::<Inp, V, A>(m.options.0, inp, rec, s);
            let r = <OneOf<(A, B, C, D, E, F, G, H)> as Matcher<Inp, V>>::spec_match(&m, inp, rec, s);
            &&& o1 == Outcome::<bool>::Done(false) ==> r == <OneOf<(B, C, D, E, F, G, H)> as Matcher<Inp, V>>::spec_match(&OneOf { options: (m.options.1, m.options.2, m.options.3, m.options.4, m.options.5, m.options.6, m.options.7) }, inp, rec, s1)
            &&& o1 != Outcome::<bool>::Done(false) ==> r == (o1, s1)
        }),
{
}

/// A choice of 9 alternatives runs the first alternative first: where it does not miss,
/// its outcome and state are the choice's; only where it misses are the other alternatives
/// tried, in order, from the state it left.
pub proof fn lemma_one_of9_order<Inp: Input, V, A: Matcher<Inp, V>, B: Matcher<Inp, V>, C: Matcher<Inp, V>, D: Matcher<Inp, V>, E: Matcher<Inp, V>, F: Matcher<Inp, V>, G: Matcher<Inp, V>, H: Matcher<Inp, V>, I: Matcher<Inp, V>>(m: OneOf<(A, B, C, D, E, F, G, H, I)>, inp: Inp, rec: bool, s: State<V>)
    ensures
        ({
            let (o1, s1) = spec_run::<Inp, V, A>(m.options.0, inp, rec, s);
            let r = <OneOf<(A, B, C, D, E, F, G, H, I)> as Matcher<Inp, V>>::spec_match(&m, inp, rec, s);
            &&& o1 == Outcome::<bool>::Done(false) ==> r == <OneOf<(B, C, D, E, F, G, H, I)> as Matcher<Inp, V>>::spec_match(&OneOf { options: (m.options.1, m.options.2, m.options.3, m.options.4, m.options.5, m.options.6, m.options.7, m.options.8) }, inp, rec, s1)
            &&& o1 != Outcome::<bool>::Done(false) ==> r == (o1, s1)
        }),
{
}

/// A choice of 10 alternatives runs the first alternative first: where it does not miss,
/// its outcome and state are the choice's; only where it misses are the other alternatives
/// tried, in order, from the state it left.
pub proof fn lemma_one_of10_order<Inp: Input, V, A: Matcher<Inp, V>, B: Matcher<Inp, V>, C: Matcher<Inp, V>, D: Matcher<Inp, V>, E: Matcher<Inp, V>, F: Matcher<Inp, V>, G: Matcher<Inp, V>, H: Matcher<Inp, V>, I: Matcher<Inp, V>, J: Matcher<Inp, V>>(m: OneOf<(A, B, C, D, E, F, G, H, I, J)>, inp: Inp, rec: bool, s: State<V>)
    ensures
        ({
            let (o1, s1) = spec_run::<Inp, V, A>(m.options.0, inp, rec, s);
            let r = <OneOf<(A, B, C, D, E, F, G, H, I, J)> as Matcher<Inp, V>>::spec_match(&m, inp, rec, s);
            &&& o1 == Outcome::<bool>::Done(false) ==> r == <OneOf<(B, C, D, E, F, G, H, I, J)> as Matcher<Inp, V>>::spec_match(&OneOf { options: (m.options.1, m.options.2, m.options.3, m.options.4, m.options.5, m.options.6, m.options.7, m.options.8, m.options.9) }, inp, rec, s1)
            &&& o1 != Outcome::<bool>::Done(false) ==> r == (o1, s1)
        }),
{
}

/// A choice of 11 alternatives runs the first alternative first: where it does not miss,
/// its outcome and state are the choice's; only where it misses are the other alternatives
/// tried, in order, from the state it left.
pub proof fn lemma_one_of11_order<Inp: Input, V, A: Matcher<Inp, V>, B: Matcher<Inp, V>, C: Matcher<Inp, V>, D: Matcher<Inp, V>, E: Matcher<Inp, V>, F: Matcher<Inp, V>, G: Matcher<Inp, V>, H: Matcher<Inp, V>, I: Matcher<Inp, V>, J: Matcher<Inp, V>, K: Matcher<Inp, V>>(m: OneOf<(A, B, C, D, E, F, G, H, I, J, K)>, inp: Inp, rec: bool, s: State<V>)
    ensures
        ({
            let (o1, s1) = spec_run::<Inp, V, A>(m.options.0, inp, rec, s);
            let r = <OneOf<(A, B, C, D, E, F, G, H, I, J, K)> as Matcher<Inp, V>>::spec_match(&m, inp, rec, s);
            &&& o1 == Outcome::<bool>::Done(false) ==> r == <OneOf<(B, C, D, E, F, G, H, I, J, K)> as Matcher<Inp, V>>::spec_match(&OneOf { options: (m.options.1, m.options.2, m.options.3, m.options.4, m.options.5, m.options.6, m.options.7, m.options.8, m.options.9, m.options.10) }, inp, rec, s1)
            &&& o1 != Outcome::<bool>::Done(false) ==> r == (o1, s1)
        }),
{
}

/// A choice of 12 alternatives runs the first alternative first: where it does not miss,
/// its outcome and state are the choice's; only where it misses are the other alternatives
/// tried, in order, from the state it left.
pub proof fn lemma_one_of12_order<Inp: Input, V, A: Matcher<Inp, V>, B: Matcher<Inp, V>, C: Matcher<Inp, V>, D: Matcher<Inp, V>, E: Matcher<Inp, V>, F: Matcher<Inp, V>, G: Matcher<Inp, V>, H: Matcher<Inp, V>, I: Matcher<Inp, V>, J: Matcher<Inp, V>, K: Matcher<Inp, V>, L: Matcher<Inp, V>>(m: OneOf<(A, B, C, D, E, F, G, H, I, J, K, L)>, inp: Inp, rec: bool, s: State<V>)
    ensures
        ({
            let (o1, s1) = spec_run::<Inp, V, A>(m.options.0, inp, rec, s);
            let r = <OneOf<(A, B, C, D, E, F, G, H, I, J, K, L)> as Matcher<Inp, V>>::spec_match(&m, inp, rec, s);
            &&& o1 == Outcome::<bool>::Done(false) ==> r == <OneOf<(B, C, D, E, F, G, H, I, J, K, L)> as Matcher<Inp, V>>::spec_match(&OneOf { options: (m.options.1, m.options.2, m.options.3, m.options.4, m.options.5, m.options.6, m.options.7, m.options.8, m.options.9, m.options.10, m.options.11) }, inp, rec, s1)
            &&& o1 != Outcome::<bool>::Done(false) ==> r == (o1, s1)
        }),
{
}


} // verus!
