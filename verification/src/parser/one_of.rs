//! Ordered choice between parsers with one output type.
use vstd::prelude::*;
use crate::error_handler::HandlerModel;
use crate::context::{memo_ok, Outcome, ParserContext, State, exec_state, same_but_handler};
use crate::error::MatcherRunError;
use crate::error_handler::ErrorHandler;
use crate::input::{Input, InputStream};
use crate::matcher::lemma_grows_trans;
use crate::matcher::one_of::OneOf;
use crate::parser::Parser;

verus! {

/// Ordered choice over a tuple of parsers (the first that produces a value wins).
pub struct OneOfParser<T> {
    /// The alternatives, tried in order.
    pub options: T,
}

impl<T> OneOfParser<T> {
    /// Choose among `options`.
    pub fn new(options: T) -> (r: Self)
        ensures
            r.options == options,
    {
        OneOfParser { options }
    }
}

/// `a`, and where it produces nothing, `b`.
pub open spec fn spec_parse_or<Inp: Input, V, A: Parser<Inp, V>, B: Parser<Inp, V, Output = A::Output>>(
    a: A,
    b: B,
    inp: Inp,
    rec: bool,
    s: State<V>,
) -> (Outcome<Option<A::Output>>, State<V>) {
    let (o1, s1) = a.spec_parse(inp, rec, s);
    match o1 {
        Outcome::Done(None) => b.spec_parse(inp, rec, s1),
        _ => (o1, s1),
    }
}

/// `a`, `b` and `c` in order.
pub open spec fn spec_parse_or3<
    Inp: Input,
    V,
    A: Parser<Inp, V>,
    B: Parser<Inp, V, Output = A::Output>,
    C: Parser<Inp, V, Output = A::Output>,
>(a: A, b: B, c: C, inp: Inp, rec: bool, s: State<V>) -> (Outcome<Option<A::Output>>, State<V>) {
    let (o1, s1) = a.spec_parse(inp, rec, s);
    match o1 {
        Outcome::Done(None) => spec_parse_or::<Inp, V, B, C>(b, c, inp, rec, s1),
        _ => (o1, s1),
    }
}

/// Bounds of [`spec_parse_or`].
pub proof fn lemma_parse_or_bounds<Inp: Input, V, A: Parser<Inp, V>, B: Parser<Inp, V, Output = A::Output>>(
    a: A,
    b: B,
    inp: Inp,
    rec: bool,
    s: State<V>,
)
    requires
        a.wf(),
        b.wf(),
        s.valid(inp.spec_len()),
    ensures
        ({
            let (o, s2) = spec_parse_or::<Inp, V, A, B>(a, b, inp, rec, s);
            &&& s2.valid(inp.spec_len())
            &&& o matches Outcome::Done(Some(_)) ==> s.pos <= s2.pos
            &&& o == Outcome::<Option<A::Output>>::Done(None) ==> s2.pos == s.pos
            &&& s2.binds == s.binds
            &&& crate::matcher::grows(s, s2)
        }),
{
    a.lemma_parse_bounds(inp, rec, s);
    let (o1, s1) = a.spec_parse(inp, rec, s);
    if o1 == Outcome::<Option<A::Output>>::Done(None) {
        b.lemma_parse_bounds(inp, rec, s1);
        lemma_grows_trans(s, s1, b.spec_parse(inp, rec, s1).1);
    }
}

/// Bounds of [`spec_parse_or3`].
pub proof fn lemma_parse_or3_bounds<
    Inp: Input,
    V,
    A: Parser<Inp, V>,
    B: Parser<Inp, V, Output = A::Output>,
    C: Parser<Inp, V, Output = A::Output>,
>(a: A, b: B, c: C, inp: Inp, rec: bool, s: State<V>)
    requires
        a.wf(),
        b.wf(),
        c.wf(),
        s.valid(inp.spec_len()),
    ensures
        ({
            let (o, s2) = spec_parse_or3::<Inp, V, A, B, C>(a, b, c, inp, rec, s);
            &&& s2.valid(inp.spec_len())
            &&& o matches Outcome::Done(Some(_)) ==> s.pos <= s2.pos
            &&& o == Outcome::<Option<A::Output>>::Done(None) ==> s2.pos == s.pos
            &&& s2.binds == s.binds
            &&& crate::matcher::grows(s, s2)
        }),
{
    a.lemma_parse_bounds(inp, rec, s);
    let (o1, s1) = a.spec_parse(inp, rec, s);
    if o1 == Outcome::<Option<A::Output>>::Done(None) {
        lemma_parse_or_bounds::<Inp, V, B, C>(b, c, inp, rec, s1);
        lemma_grows_trans(s, s1, spec_parse_or::<Inp, V, B, C>(b, c, inp, rec, s1).1);
    }
}

/// [`spec_parse_or`] depends on the error handler's state only through whether it collects
/// errors (see [`Parser::lemma_parse_handler_blind`]).
pub proof fn lemma_parse_or_handler_blind<Inp: Input, V, A: Parser<Inp, V>, B: Parser<Inp, V, Output = A::Output>>(
    a: A,
    b: B,
    inp: Inp,
    rec: bool,
    s: State<V>,
    eh2: HandlerModel,
)
    requires
        a.wf(),
        b.wf(),
        s.valid(inp.spec_len()),
        eh2.is_real() == s.eh.is_real(),
    ensures
        ({
            let (o1, s1) = spec_parse_or::<Inp, V, A, B>(a, b, inp, rec, s);
            let (o2, s2) = spec_parse_or::<Inp, V, A, B>(a, b, inp, rec, s.with_eh(eh2));
            &&& !(o1 is Stuck) ==> s1.eh.is_real() == s.eh.is_real()
            &&& !(o1 is Stuck) && !(o2 is Stuck) ==> o1 == o2 && same_but_handler(s1, s2)
        }),
{
    a.lemma_parse_bounds(inp, rec, s);
    a.lemma_parse_handler_blind(inp, rec, s, eh2);
    a.lemma_parse_handler_blind(inp, rec, s.with_eh(eh2), s.eh);
    let (o1, s1) = a.spec_parse(inp, rec, s);
    let (o1b, s1b) = a.spec_parse(inp, rec, s.with_eh(eh2));
    if o1 == Outcome::<Option<A::Output>>::Done(None) {
        let e = if o1b == Outcome::<Option<A::Output>>::Done(None) { s1b.eh } else { s1.eh };
        if o1b == Outcome::<Option<A::Output>>::Done(None) {
            assert(s1b == s1.with_eh(s1b.eh));
        }
        b.lemma_parse_handler_blind(inp, rec, s1, e);
    }
}

/// Run `a`, then `b` where `a` produced nothing (see [`spec_parse_or`]).
fn parse_or<Inp: Input, V, A: Parser<Inp, V>, B: Parser<Inp, V, Output = A::Output>, EH: ErrorHandler>(
    a: &A,
    b: &B,
    ctx: &mut ParserContext<V>,
    eh: &mut EH,
    input: &mut InputStream<Inp>,
) -> (r: Result<Option<A::Output>, MatcherRunError>)
    requires
        a.wf(),
        b.wf(),
        old(input).pos <= old(input).input.spec_len(),
        memo_ok(old(ctx).memo_store@, old(input).input.spec_len()),
        old(input).input.spec_len() <= usize::MAX,
        !(spec_parse_or::<Inp, V, A, B>(
            *a,
            *b,
            old(input).input,
            old(ctx).is_in_error_recovery,
            exec_state(old(ctx), Seq::empty(), old(eh), old(input)),
        ).0 is Stuck),
    ensures
        final(input).input == old(input).input,
        final(ctx).is_in_error_recovery == old(ctx).is_in_error_recovery,
        ({
            let (o, s2) = spec_parse_or::<Inp, V, A, B>(
                *a,
                *b,
                old(input).input,
                old(ctx).is_in_error_recovery,
                exec_state(old(ctx), Seq::empty(), old(eh), old(input)),
            );
            &&& crate::context::result_matches(r, o)
            &&& exec_state(final(ctx), Seq::empty(), final(eh), final(input)) == s2
        }),
{
    proof {
        a.lemma_parse_bounds(input.input, ctx.is_in_error_recovery, exec_state(ctx, Seq::empty(), eh, input));
    }
    match a.parse(ctx, eh, input) {
        Ok(None) => b.parse(ctx, eh, input),
        other => other,
    }
}

impl<Inp: Input, V, A: Parser<Inp, V>, B: Parser<Inp, V, Output = A::Output>> Parser<Inp, V> for OneOfParser<
    (A, B),
> {
    type Output = A::Output;

    open spec fn wf(&self) -> bool {
        self.options.0.wf() && self.options.1.wf()
    }

    open spec fn spec_label(&self) -> Option<Seq<char>> {
        None
    }

    open spec fn spec_parse(&self, inp: Inp, rec: bool, s: State<V>) -> (Outcome<Option<A::Output>>, State<V>) {
        spec_parse_or::<Inp, V, A, B>(self.options.0, self.options.1, inp, rec, s)
    }

    proof fn lemma_parse_bounds(&self, inp: Inp, rec: bool, s: State<V>) {
        lemma_parse_or_bounds::<Inp, V, A, B>(self.options.0, self.options.1, inp, rec, s);
    }

    proof fn lemma_parse_handler_blind(&self, inp: Inp, rec: bool, s: State<V>, eh2: HandlerModel) {
        lemma_parse_or_handler_blind::<Inp, V, A, B>(self.options.0, self.options.1, inp, rec, s, eh2);
    }

    fn maybe_label(&self) -> (l: Option<String>) {
        None
    }

    fn parse<EH: ErrorHandler>(
        &self,
        ctx: &mut ParserContext<V>,
        eh: &mut EH,
        input: &mut InputStream<Inp>,
    ) -> (r: Result<Option<A::Output>, MatcherRunError>) {
        parse_or(&self.options.0, &self.options.1, ctx, eh, input)
    }
}

impl<
    Inp: Input,
    V,
    A: Parser<Inp, V>,
    B: Parser<Inp, V, Output = A::Output>,
    C: Parser<Inp, V, Output = A::Output>,
> Parser<Inp, V> for OneOfParser<(A, B, C)> {
    type Output = A::Output;

    open spec fn wf(&self) -> bool {
        self.options.0.wf() && self.options.1.wf() && self.options.2.wf()
    }

    open spec fn spec_label(&self) -> Option<Seq<char>> {
        None
    }

    open spec fn spec_parse(&self, inp: Inp, rec: bool, s: State<V>) -> (Outcome<Option<A::Output>>, State<V>) {
        spec_parse_or3::<Inp, V, A, B, C>(self.options.0, self.options.1, self.options.2, inp, rec, s)
    }

    proof fn lemma_parse_bounds(&self, inp: Inp, rec: bool, s: State<V>) {
        lemma_parse_or3_bounds::<Inp, V, A, B, C>(
            self.options.0,
            self.options.1,
            self.options.2,
            inp,
            rec,
            s,
        );
    }

    proof fn lemma_parse_handler_blind(&self, inp: Inp, rec: bool, s: State<V>, eh2: HandlerModel) {
        self.options.0.lemma_parse_bounds(inp, rec, s);
        self.options.0.lemma_parse_handler_blind(inp, rec, s, eh2);
        self.options.0.lemma_parse_handler_blind(inp, rec, s.with_eh(eh2), s.eh);
        let (o1, s1) = self.options.0.spec_parse(inp, rec, s);
        let (o1b, s1b) = self.options.0.spec_parse(inp, rec, s.with_eh(eh2));
        if o1 == Outcome::<Option<A::Output>>::Done(None) {
            let e = if o1b == Outcome::<Option<A::Output>>::Done(None) { s1b.eh } else { s1.eh };
            if o1b == Outcome::<Option<A::Output>>::Done(None) {
                assert(s1b == s1.with_eh(s1b.eh));
            }
            lemma_parse_or_handler_blind::<Inp, V, B, C>(self.options.1, self.options.2, inp, rec, s1, e);
        }
    }

    fn maybe_label(&self) -> (l: Option<String>) {
        None
    }

    fn parse<EH: ErrorHandler>(
        &self,
        ctx: &mut ParserContext<V>,
        eh: &mut EH,
        input: &mut InputStream<Inp>,
    ) -> (r: Result<Option<A::Output>, MatcherRunError>) {
        proof {
            self.options.0.lemma_parse_bounds(
                input.input,
                ctx.is_in_error_recovery,
                exec_state(ctx, Seq::empty(), eh, input),
            );
        }
        match self.options.0.parse(ctx, eh, input) {
            Ok(None) => parse_or(&self.options.1, &self.options.2, ctx, eh, input),
            other => other,
        }
    }
}

impl<
    Inp: Input,
    V,
    A: Parser<Inp, V>,
> Parser<Inp, V> for OneOf<(A,)> {
    type Output = A::Output;

    open spec fn wf(&self) -> bool {
        self.options.0.wf()
    }

    open spec fn spec_label(&self) -> Option<Seq<char>> {
        None
    }

    open spec fn spec_parse(&self, inp: Inp, rec: bool, s: State<V>) -> (Outcome<Option<A::Output>>, State<V>) {
        self.options.0.spec_parse(inp, rec, s)
    }

    proof fn lemma_parse_bounds(&self, inp: Inp, rec: bool, s: State<V>) {
        self.options.0.lemma_parse_bounds(inp, rec, s);
    }

    proof fn lemma_parse_handler_blind(&self, inp: Inp, rec: bool, s: State<V>, eh2: HandlerModel) {
        self.options.0.lemma_parse_handler_blind(inp, rec, s, eh2);
    }

    fn maybe_label(&self) -> (l: Option<String>) {
        None
    }

    #[verifier::rlimit(50)]
    fn parse<EH: ErrorHandler>(
        &self,
        ctx: &mut ParserContext<V>,
        eh: &mut EH,
        input: &mut InputStream<Inp>,
    ) -> (r: Result<Option<A::Output>, MatcherRunError>) {
        self.options.0.parse(ctx, eh, input)
    }
}

impl<
    Inp: Input,
    V,
    A: Parser<Inp, V>,
    B: Parser<Inp, V, Output = A::Output>,
> Parser<Inp, V> for OneOf<(A, B)> {
    type Output = A::Output;

    open spec fn wf(&self) -> bool {
        self.options.0.wf() && self.options.1.wf()
    }

    open spec fn spec_label(&self) -> Option<Seq<char>> {
        None
    }

    open spec fn spec_parse(&self, inp: Inp, rec: bool, s: State<V>) -> (Outcome<Option<A::Output>>, State<V>) {
        let (o1, s1) = self.options.0.spec_parse(inp, rec, s);
        match o1 {
            Outcome::Done(None) => (OneOf { options: (self.options.1,) }).spec_parse(inp, rec, s1),
            _ => (o1, s1),
        }
    }

    proof fn lemma_parse_bounds(&self, inp: Inp, rec: bool, s: State<V>) {
        self.options.0.lemma_parse_bounds(inp, rec, s);
        let (o1, s1) = self.options.0.spec_parse(inp, rec, s);
        if o1 == Outcome::<Option<A::Output>>::Done(None) {
            let rest = OneOf { options: (self.options.1,) };
            rest.lemma_parse_bounds(inp, rec, s1);
            lemma_grows_trans(s, s1, rest.spec_parse(inp, rec, s1).1);
        }
    }

    proof fn lemma_parse_handler_blind(&self, inp: Inp, rec: bool, s: State<V>, eh2: HandlerModel) {
        self.options.0.lemma_parse_bounds(inp, rec, s);
        self.options.0.lemma_parse_handler_blind(inp, rec, s, eh2);
        self.options.0.lemma_parse_handler_blind(inp, rec, s.with_eh(eh2), s.eh);
        let (o1, s1) = self.options.0.spec_parse(inp, rec, s);
        let (o1b, s1b) = self.options.0.spec_parse(inp, rec, s.with_eh(eh2));
        if o1 == Outcome::<Option<A::Output>>::Done(None) {
            let e = if o1b == Outcome::<Option<A::Output>>::Done(None) { s1b.eh } else { s1.eh };
            if o1b == Outcome::<Option<A::Output>>::Done(None) {
                assert(s1b == s1.with_eh(s1b.eh));
            }
            (OneOf { options: (self.options.1,) }).lemma_parse_handler_blind(inp, rec, s1, e);
        }
    }

    fn maybe_label(&self) -> (l: Option<String>) {
        None
    }

    #[verifier::rlimit(50)]
    fn parse<EH: ErrorHandler>(
        &self,
        ctx: &mut ParserContext<V>,
        eh: &mut EH,
        input: &mut InputStream<Inp>,
    ) -> (r: Result<Option<A::Output>, MatcherRunError>) {
        proof {
            self.options.0.lemma_parse_bounds(
                input.input,
                ctx.is_in_error_recovery,
                exec_state(ctx, Seq::empty(), eh, input),
            );
        }
        match self.options.0.parse(ctx, eh, input) {
            Ok(None) => {},
            other => return other,
        }
        self.options.1.parse(ctx, eh, input)
    }
}

impl<
    Inp: Input,
    V,
    A: Parser<Inp, V>,
    B: Parser<Inp, V, Output = A::Output>,
    C: Parser<Inp, V, Output = A::Output>,
> Parser<Inp, V> for OneOf<(A, B, C)> {
    type Output = A::Output;

    open spec fn wf(&self) -> bool {
        self.options.0.wf() && self.options.1.wf() && self.options.2.wf()
    }

    open spec fn spec_label(&self) -> Option<Seq<char>> {
        None
    }

    open spec fn spec_parse(&self, inp: Inp, rec: bool, s: State<V>) -> (Outcome<Option<A::Output>>, State<V>) {
        let (o1, s1) = self.options.0.spec_parse(inp, rec, s);
        match o1 {
            Outcome::Done(None) => (OneOf { options: (self.options.1, self.options.2) }).spec_parse(inp, rec, s1),
            _ => (o1, s1),
        }
    }

    proof fn lemma_parse_bounds(&self, inp: Inp, rec: bool, s: State<V>) {
        self.options.0.lemma_parse_bounds(inp, rec, s);
        let (o1, s1) = self.options.0.spec_parse(inp, rec, s);
        if o1 == Outcome::<Option<A::Output>>::Done(None) {
            let rest = OneOf { options: (self.options.1, self.options.2) };
            rest.lemma_parse_bounds(inp, rec, s1);
            lemma_grows_trans(s, s1, rest.spec_parse(inp, rec, s1).1);
        }
    }

    proof fn lemma_parse_handler_blind(&self, inp: Inp, rec: bool, s: State<V>, eh2: HandlerModel) {
        self.options.0.lemma_parse_bounds(inp, rec, s);
        self.options.0.lemma_parse_handler_blind(inp, rec, s, eh2);
        self.options.0.lemma_parse_handler_blind(inp, rec, s.with_eh(eh2), s.eh);
        let (o1, s1) = self.options.0.spec_parse(inp, rec, s);
        let (o1b, s1b) = self.options.0.spec_parse(inp, rec, s.with_eh(eh2));
        if o1 == Outcome::<Option<A::Output>>::Done(None) {
            let e = if o1b == Outcome::<Option<A::Output>>::Done(None) { s1b.eh } else { s1.eh };
            if o1b == Outcome::<Option<A::Output>>::Done(None) {
                assert(s1b == s1.with_eh(s1b.eh));
            }
            (OneOf { options: (self.options.1, self.options.2) }).lemma_parse_handler_blind(inp, rec, s1, e);
        }
    }

    fn maybe_label(&self) -> (l: Option<String>) {
        None
    }

    #[verifier::rlimit(50)]
    fn parse<EH: ErrorHandler>(
        &self,
        ctx: &mut ParserContext<V>,
        eh: &mut EH,
        input: &mut InputStream<Inp>,
    ) -> (r: Result<Option<A::Output>, MatcherRunError>) {
        proof {
            self.options.0.lemma_parse_bounds(
                input.input,
                ctx.is_in_error_recovery,
                exec_state(ctx, Seq::empty(), eh, input),
            );
        }
        match self.options.0.parse(ctx, eh, input) {
            Ok(None) => {},
            other => return other,
        }
        proof {
            self.options.1.lemma_parse_bounds(
                input.input,
                ctx.is_in_error_recovery,
                exec_state(ctx, Seq::empty(), eh, input),
            );
        }
        match self.options.1.parse(ctx, eh, input) {
            Ok(None) => {},
            other => return other,
        }
        self.options.2.parse(ctx, eh, input)
    }
}

impl<
    Inp: Input,
    V,
    A: Parser<Inp, V>,
    B: Parser<Inp, V, Output = A::Output>,
    C: Parser<Inp, V, Output = A::Output>,
    D: Parser<Inp, V, Output = A::Output>,
> Parser<Inp, V> for OneOf<(A, B, C, D)> {
    type Output = A::Output;

    open spec fn wf(&self) -> bool {
        self.options.0.wf() && self.options.1.wf() && self.options.2.wf() && self.options.3.wf()
    }

    open spec fn spec_label(&self) -> Option<Seq<char>> {
        None
    }

    open spec fn spec_parse(&self, inp: Inp, rec: bool, s: State<V>) -> (Outcome<Option<A::Output>>, State<V>) {
        let (o1, s1) = self.options.0.spec_parse(inp, rec, s);
        match o1 {
            Outcome::Done(None) => (OneOf { options: (self.options.1, self.options.2, self.options.3) }).spec_parse(inp, rec, s1),
            _ => (o1, s1),
        }
    }

    proof fn lemma_parse_bounds(&self, inp: Inp, rec: bool, s: State<V>) {
        self.options.0.lemma_parse_bounds(inp, rec, s);
        let (o1, s1) = self.options.0.spec_parse(inp, rec, s);
        if o1 == Outcome::<Option<A::Output>>::Done(None) {
            let rest = OneOf { options: (self.options.1, self.options.2, self.options.3) };
            rest.lemma_parse_bounds(inp, rec, s1);
            lemma_grows_trans(s, s1, rest.spec_parse(inp, rec, s1).1);
        }
    }

    proof fn lemma_parse_handler_blind(&self, inp: Inp, rec: bool, s: State<V>, eh2: HandlerModel) {
        self.options.0.lemma_parse_bounds(inp, rec, s);
        self.options.0.lemma_parse_handler_blind(inp, rec, s, eh2);
        self.options.0.lemma_parse_handler_blind(inp, rec, s.with_eh(eh2), s.eh);
        let (o1, s1) = self.options.0.spec_parse(inp, rec, s);
        let (o1b, s1b) = self.options.0.spec_parse(inp, rec, s.with_eh(eh2));
        if o1 == Outcome::<Option<A::Output>>::Done(None) {
            let e = if o1b == Outcome::<Option<A::Output>>::Done(None) { s1b.eh } else { s1.eh };
            if o1b == Outcome::<Option<A::Output>>::Done(None) {
                assert(s1b == s1.with_eh(s1b.eh));
            }
            (OneOf { options: (self.options.1, self.options.2, self.options.3) }).lemma_parse_handler_blind(inp, rec, s1, e);
        }
    }

    fn maybe_label(&self) -> (l: Option<String>) {
        None
    }

    #[verifier::rlimit(50)]
    fn parse<EH: ErrorHandler>(
        &self,
        ctx: &mut ParserContext<V>,
        eh: &mut EH,
        input: &mut InputStream<Inp>,
    ) -> (r: Result<Option<A::Output>, MatcherRunError>) {
        proof {
            self.options.0.lemma_parse_bounds(
                input.input,
                ctx.is_in_error_recovery,
                exec_state(ctx, Seq::empty(), eh, input),
            );
        }
        match self.options.0.parse(ctx, eh, input) {
            Ok(None) => {},
            other => return other,
        }
        proof {
            self.options.1.lemma_parse_bounds(
                input.input,
                ctx.is_in_error_recovery,
                exec_state(ctx, Seq::empty(), eh, input),
            );
        }
        match self.options.1.parse(ctx, eh, input) {
            Ok(None) => {},
            other => return other,
        }
        proof {
            self.options.2.lemma_parse_bounds(
                input.input,
                ctx.is_in_error_recovery,
                exec_state(ctx, Seq::empty(), eh, input),
            );
        }
        match self.options.2.parse(ctx, eh, input) {
            Ok(None) => {},
            other => return other,
        }
        self.options.3.parse(ctx, eh, input)
    }
}

impl<
    Inp: Input,
    V,
    A: Parser<Inp, V>,
    B: Parser<Inp, V, Output = A::Output>,
    C: Parser<Inp, V, Output = A::Output>,
    D: Parser<Inp, V, Output = A::Output>,
    E: Parser<Inp, V, Output = A::Output>,
> Parser<Inp, V> for OneOf<(A, B, C, D, E)> {
    type Output = A::Output;

    open spec fn wf(&self) -> bool {
        self.options.0.wf() && self.options.1.wf() && self.options.2.wf() && self.options.3.wf() && self.options.4.wf()
    }

    open spec fn spec_label(&self) -> Option<Seq<char>> {
        None
    }

    open spec fn spec_parse(&self, inp: Inp, rec: bool, s: State<V>) -> (Outcome<Option<A::Output>>, State<V>) {
        let (o1, s1) = self.options.0.spec_parse(inp, rec, s);
        match o1 {
            Outcome::Done(None) => (OneOf { options: (self.options.1, self.options.2, self.options.3, self.options.4) }).spec_parse(inp, rec, s1),
            _ => (o1, s1),
        }
    }

    proof fn lemma_parse_bounds(&self, inp: Inp, rec: bool, s: State<V>) {
        self.options.0.lemma_parse_bounds(inp, rec, s);
        let (o1, s1) = self.options.0.spec_parse(inp, rec, s);
        if o1 == Outcome::<Option<A::Output>>::Done(None) {
            let rest = OneOf { options: (self.options.1, self.options.2, self.options.3, self.options.4) };
            rest.lemma_parse_bounds(inp, rec, s1);
            lemma_grows_trans(s, s1, rest.spec_parse(inp, rec, s1).1);
        }
    }

    proof fn lemma_parse_handler_blind(&self, inp: Inp, rec: bool, s: State<V>, eh2: HandlerModel) {
        self.options.0.lemma_parse_bounds(inp, rec, s);
        self.options.0.lemma_parse_handler_blind(inp, rec, s, eh2);
        self.options.0.lemma_parse_handler_blind(inp, rec, s.with_eh(eh2), s.eh);
        let (o1, s1) = self.options.0.spec_parse(inp, rec, s);
        let (o1b, s1b) = self.options.0.spec_parse(inp, rec, s.with_eh(eh2));
        if o1 == Outcome::<Option<A::Output>>::Done(None) {
            let e = if o1b == Outcome::<Option<A::Output>>::Done(None) { s1b.eh } else { s1.eh };
            if o1b == Outcome::<Option<A::Output>>::Done(None) {
                assert(s1b == s1.with_eh(s1b.eh));
            }
            (OneOf { options: (self.options.1, self.options.2, self.options.3, self.options.4) }).lemma_parse_handler_blind(inp, rec, s1, e);
        }
    }

    fn maybe_label(&self) -> (l: Option<String>) {
        None
    }

    #[verifier::rlimit(50)]
    fn parse<EH: ErrorHandler>(
        &self,
        ctx: &mut ParserContext<V>,
        eh: &mut EH,
        input: &mut InputStream<Inp>,
    ) -> (r: Result<Option<A::Output>, MatcherRunError>) {
        proof {
            self.options.0.lemma_parse_bounds(
                input.input,
                ctx.is_in_error_recovery,
                exec_state(ctx, Seq::empty(), eh, input),
            );
        }
        match self.options.0.parse(ctx, eh, input) {
            Ok(None) => {},
            other => return other,
        }
        proof {
            self.options.1.lemma_parse_bounds(
                input.input,
                ctx.is_in_error_recovery,
                exec_state(ctx, Seq::empty(), eh, input),
            );
        }
        match self.options.1.parse(ctx, eh, input) {
            Ok(None) => {},
            other => return other,
        }
        proof {
            self.options.2.lemma_parse_bounds(
                input.input,
                ctx.is_in_error_recovery,
                exec_state(ctx, Seq::empty(), eh, input),
            );
        }
        match self.options.2.parse(ctx, eh, input) {
            Ok(None) => {},
            other => return other,
        }
        proof {
            self.options.3.lemma_parse_bounds(
                input.input,
                ctx.is_in_error_recovery,
                exec_state(ctx, Seq::empty(), eh, input),
            );
        }
        match self.options.3.parse(ctx, eh, input) {
            Ok(None) => {},
            other => return other,
        }
        self.options.4.parse(ctx, eh, input)
    }
}

impl<
    Inp: Input,
    V,
    A: Parser<Inp, V>,
    B: Parser<Inp, V, Output = A::Output>,
    C: Parser<Inp, V, Output = A::Output>,
    D: Parser<Inp, V, Output = A::Output>,
    E: Parser<Inp, V, Output = A::Output>,
    F: Parser<Inp, V, Output = A::Output>,
> Parser<Inp, V> for OneOf<(A, B, C, D, E, F)> {
    type Output = A::Output;

    open spec fn wf(&self) -> bool {
        self.options.0.wf() && self.options.1.wf() && self.options.2.wf() && self.options.3.wf() && self.options.4.wf() && self.options.5.wf()
    }

    open spec fn spec_label(&self) -> Option<Seq<char>> {
        None
    }

    open spec fn spec_parse(&self, inp: Inp, rec: bool, s: State<V>) -> (Outcome<Option<A::Output>>, State<V>) {
        let (o1, s1) = self.options.0.spec_parse(inp, rec, s);
        match o1 {
            Outcome::Done(None) => (OneOf { options: (self.options.1, self.options.2, self.options.3, self.options.4, self.options.5) }).spec_parse(inp, rec, s1),
            _ => (o1, s1),
        }
    }

    proof fn lemma_parse_bounds(&self, inp: Inp, rec: bool, s: State<V>) {
        self.options.0.lemma_parse_bounds(inp, rec, s);
        let (o1, s1) = self.options.0.spec_parse(inp, rec, s);
        if o1 == Outcome::<Option<A::Output>>::Done(None) {
            let rest = OneOf { options: (self.options.1, self.options.2, self.options.3, self.options.4, self.options.5) };
            rest.lemma_parse_bounds(inp, rec, s1);
            lemma_grows_trans(s, s1, rest.spec_parse(inp, rec, s1).1);
        }
    }

    proof fn lemma_parse_handler_blind(&self, inp: Inp, rec: bool, s: State<V>, eh2: HandlerModel) {
        self.options.0.lemma_parse_bounds(inp, rec, s);
        self.options.0.lemma_parse_handler_blind(inp, rec, s, eh2);
        self.options.0.lemma_parse_handler_blind(inp, rec, s.with_eh(eh2), s.eh);
        let (o1, s1) = self.options.0.spec_parse(inp, rec, s);
        let (o1b, s1b) = self.options.0.spec_parse(inp, rec, s.with_eh(eh2));
        if o1 == Outcome::<Option<A::Output>>::Done(None) {
            let e = if o1b == Outcome::<Option<A::Output>>::Done(None) { s1b.eh } else { s1.eh };
            if o1b == Outcome::<Option<A::Output>>::Done(None) {
                assert(s1b == s1.with_eh(s1b.eh));
            }
            (OneOf { options: (self.options.1, self.options.2, self.options.3, self.options.4, self.options.5) }).lemma_parse_handler_blind(inp, rec, s1, e);
        }
    }

    fn maybe_label(&self) -> (l: Option<String>) {
        None
    }

    #[verifier::rlimit(50)]
    fn parse<EH: ErrorHandler>(
        &self,
        ctx: &mut ParserContext<V>,
        eh: &mut EH,
        input: &mut InputStream<Inp>,
    ) -> (r: Result<Option<A::Output>, MatcherRunError>) {
        proof {
            self.options.0.lemma_parse_bounds(
                input.input,
                ctx.is_in_error_recovery,
                exec_state(ctx, Seq::empty(), eh, input),
            );
        }
        match self.options.0.parse(ctx, eh, input) {
            Ok(None) => {},
            other => return other,
        }
        proof {
            self.options.1.lemma_parse_bounds(
                input.input,
                ctx.is_in_error_recovery,
                exec_state(ctx, Seq::empty(), eh, input),
            );
        }
        match self.options.1.parse(ctx, eh, input) {
            Ok(None) => {},
            other => return other,
        }
        proof {
            self.options.2.lemma_parse_bounds(
                input.input,
                ctx.is_in_error_recovery,
                exec_state(ctx, Seq::empty(), eh, input),
            );
        }
        match self.options.2.parse(ctx, eh, input) {
            Ok(None) => {},
            other => return other,
        }
        proof {
            self.options.3.lemma_parse_bounds(
                input.input,
                ctx.is_in_error_recovery,
                exec_state(ctx, Seq::empty(), eh, input),
            );
        }
        match self.options.3.parse(ctx, eh, input) {
            Ok(None) => {},
            other => return other,
        }
        proof {
            self.options.4.lemma_parse_bounds(
                input.input,
                ctx.is_in_error_recovery,
                exec_state(ctx, Seq::empty(), eh, input),
            );
        }
        match self.options.4.parse(ctx, eh, input) {
            Ok(None) => {},
            other => return other,
        }
        self.options.5.parse(ctx, eh, input)
    }
}

impl<
    Inp: Input,
    V,
    A: Parser<Inp, V>,
    B: Parser<Inp, V, Output = A::Output>,
    C: Parser<Inp, V, Output = A::Output>,
    D: Parser<Inp, V, Output = A::Output>,
    E: Parser<Inp, V, Output = A::Output>,
    F: Parser<Inp, V, Output = A::Output>,
    G: Parser<Inp, V, Output = A::Output>,
> Parser<Inp, V> for OneOf<(A, B, C, D, E, F, G)> {
    type Output = A::Output;

    open spec fn wf(&self) -> bool {
        self.options.0.wf() && self.options.1.wf() && self.options.2.wf() && self.options.3.wf() && self.options.4.wf() && self.options.5.wf() && self.options.6.wf()
    }

    open spec fn spec_label(&self) -> Option<Seq<char>> {
        None
    }

    open spec fn spec_parse(&self, inp: Inp, rec: bool, s: State<V>) -> (Outcome<Option<A::Output>>, State<V>) {
        let (o1, s1) = self.options.0.spec_parse(inp, rec, s);
        match o1 {
            Outcome::Done(None) => (OneOf { options: (self.options.1, self.options.2, self.options.3, self.options.4, self.options.5, self.options.6) }).spec_parse(inp, rec, s1),
            _ => (o1, s1),
        }
    }

    proof fn lemma_parse_bounds(&self, inp: Inp, rec: bool, s: State<V>) {
        self.options.0.lemma_parse_bounds(inp, rec, s);
        let (o1, s1) = self.options.0.spec_parse(inp, rec, s);
        if o1 == Outcome::<Option<A::Output>>::Done(None) {
            let rest = OneOf { options: (self.options.1, self.options.2, self.options.3, self.options.4, self.options.5, self.options.6) };
            rest.lemma_parse_bounds(inp, rec, s1);
            lemma_grows_trans(s, s1, rest.spec_parse(inp, rec, s1).1);
        }
    }

    proof fn lemma_parse_handler_blind(&self, inp: Inp, rec: bool, s: State<V>, eh2: HandlerModel) {
        self.options.0.lemma_parse_bounds(inp, rec, s);
        self.options.0.lemma_parse_handler_blind(inp, rec, s, eh2);
        self.options.0.lemma_parse_handler_blind(inp, rec, s.with_eh(eh2), s.eh);
        let (o1, s1) = self.options.0.spec_parse(inp, rec, s);
        let (o1b, s1b) = self.options.0.spec_parse(inp, rec, s.with_eh(eh2));
        if o1 == Outcome::<Option<A::Output>>::Done(None) {
            let e = if o1b == Outcome::<Option<A::Output>>::Done(None) { s1b.eh } else { s1.eh };
            if o1b == Outcome::<Option<A::Output>>::Done(None) {
                assert(s1b == s1.with_eh(s1b.eh));
            }
            (OneOf { options: (self.options.1, self.options.2, self.options.3, self.options.4, self.options.5, self.options.6) }).lemma_parse_handler_blind(inp, rec, s1, e);
        }
    }

    fn maybe_label(&self) -> (l: Option<String>) {
        None
    }

    #[verifier::rlimit(50)]
    fn parse<EH: ErrorHandler>(
        &self,
        ctx: &mut ParserContext<V>,
        eh: &mut EH,
        input: &mut InputStream<Inp>,
    ) -> (r: Result<Option<A::Output>, MatcherRunError>) {
        proof {
            self.options.0.lemma_parse_bounds(
                input.input,
                ctx.is_in_error_recovery,
                exec_state(ctx, Seq::empty(), eh, input),
            );
        }
        match self.options.0.parse(ctx, eh, input) {
            Ok(None) => {},
            other => return other,
        }
        proof {
            self.options.1.lemma_parse_bounds(
                input.input,
                ctx.is_in_error_recovery,
                exec_state(ctx, Seq::empty(), eh, input),
            );
        }
        match self.options.1.parse(ctx, eh, input) {
            Ok(None) => {},
            other => return other,
        }
        proof {
            self.options.2.lemma_parse_bounds(
                input.input,
                ctx.is_in_error_recovery,
                exec_state(ctx, Seq::empty(), eh, input),
            );
        }
        match self.options.2.parse(ctx, eh, input) {
            Ok(None) => {},
            other => return other,
        }
        proof {
            self.options.3.lemma_parse_bounds(
                input.input,
                ctx.is_in_error_recovery,
                exec_state(ctx, Seq::empty(), eh, input),
            );
        }
        match self.options.3.parse(ctx, eh, input) {
            Ok(None) => {},
            other => return other,
        }
        proof {
            self.options.4.lemma_parse_bounds(
                input.input,
                ctx.is_in_error_recovery,
                exec_state(ctx, Seq::empty(), eh, input),
            );
        }
        match self.options.4.parse(ctx, eh, input) {
            Ok(None) => {},
            other => return other,
        }
        proof {
            self.options.5.lemma_parse_bounds(
                input.input,
                ctx.is_in_error_recovery,
                exec_state(ctx, Seq::empty(), eh, input),
            );
        }
        match self.options.5.parse(ctx, eh, input) {
            Ok(None) => {},
            other => return other,
        }
        self.options.6.parse(ctx, eh, input)
    }
}

impl<
    Inp: Input,
    V,
    A: Parser<Inp, V>,
    B: Parser<Inp, V, Output = A::Output>,
    C: Parser<Inp, V, Output = A::Output>,
    D: Parser<Inp, V, Output = A::Output>,
    E: Parser<Inp, V, Output = A::Output>,
    F: Parser<Inp, V, Output = A::Output>,
    G: Parser<Inp, V, Output = A::Output>,
    H: Parser<Inp, V, Output = A::Output>,
> Parser<Inp, V> for OneOf<(A, B, C, D, E, F, G, H)> {
    type Output = A::Output;

    open spec fn wf(&self) -> bool {
        self.options.0.wf() && self.options.1.wf() && self.options.2.wf() && self.options.3.wf() && self.options.4.wf() && self.options.5.wf() && self.options.6.wf() && self.options.7.wf()
    }

    open spec fn spec_label(&self) -> Option<Seq<char>> {
        None
    }

    open spec fn spec_parse(&self, inp: Inp, rec: bool, s: State<V>) -> (Outcome<Option<A::Output>>, State<V>) {
        let (o1, s1) = self.options.0.spec_parse(inp, rec, s);
        match o1 {
            Outcome::Done(None) => (OneOf { options: (self.options.1, self.options.2, self.options.3, self.options.4, self.options.5, self.options.6, self.options.7) }).spec_parse(inp, rec, s1),
            _ => (o1, s1),
        }
    }

    proof fn lemma_parse_bounds(&self, inp: Inp, rec: bool, s: State<V>) {
        self.options.0.lemma_parse_bounds(inp, rec, s);
        let (o1, s1) = self.options.0.spec_parse(inp, rec, s);
        if o1 == Outcome::<Option<A::Output>>::Done(None) {
            let rest = OneOf { options: (self.options.1, self.options.2, self.options.3, self.options.4, self.options.5, self.options.6, self.options.7) };
            rest.lemma_parse_bounds(inp, rec, s1);
            lemma_grows_trans(s, s1, rest.spec_parse(inp, rec, s1).1);
        }
    }

    proof fn lemma_parse_handler_blind(&self, inp: Inp, rec: bool, s: State<V>, eh2: HandlerModel) {
        self.options.0.lemma_parse_bounds(inp, rec, s);
        self.options.0.lemma_parse_handler_blind(inp, rec, s, eh2);
        self.options.0.lemma_parse_handler_blind(inp, rec, s.with_eh(eh2), s.eh);
        let (o1, s1) = self.options.0.spec_parse(inp, rec, s);
        let (o1b, s1b) = self.options.0.spec_parse(inp, rec, s.with_eh(eh2));
        if o1 == Outcome::<Option<A::Output>>::Done(None) {
            let e = if o1b == Outcome::<Option<A::Output>>::Done(None) { s1b.eh } else { s1.eh };
            if o1b == Outcome::<Option<A::Output>>::Done(None) {
                assert(s1b == s1.with_eh(s1b.eh));
            }
            (OneOf { options: (self.options.1, self.options.2, self.options.3, self.options.4, self.options.5, self.options.6, self.options.7) }).lemma_parse_handler_blind(inp, rec, s1, e);
        }
    }

    fn maybe_label(&self) -> (l: Option<String>) {
        None
    }

    #[verifier::rlimit(50)]
    fn parse<EH: ErrorHandler>(
        &self,
        ctx: &mut ParserContext<V>,
        eh: &mut EH,
        input: &mut InputStream<Inp>,
    ) -> (r: Result<Option<A::Output>, MatcherRunError>) {
        proof {
            self.options.0.lemma_parse_bounds(
                input.input,
                ctx.is_in_error_recovery,
                exec_state(ctx, Seq::empty(), eh, input),
            );
        }
        match self.options.0.parse(ctx, eh, input) {
            Ok(None) => {},
            other => return other,
        }
        proof {
            self.options.1.lemma_parse_bounds(
                input.input,
                ctx.is_in_error_recovery,
                exec_state(ctx, Seq::empty(), eh, input),
            );
        }
        match self.options.1.parse(ctx, eh, input) {
            Ok(None) => {},
            other => return other,
        }
        proof {
            self.options.2.lemma_parse_bounds(
                input.input,
                ctx.is_in_error_recovery,
                exec_state(ctx, Seq::empty(), eh, input),
            );
        }
        match self.options.2.parse(ctx, eh, input) {
            Ok(None) => {},
            other => return other,
        }
        proof {
            self.options.3.lemma_parse_bounds(
                input.input,
                ctx.is_in_error_recovery,
                exec_state(ctx, Seq::empty(), eh, input),
            );
        }
        match self.options.3.parse(ctx, eh, input) {
            Ok(None) => {},
            other => return other,
        }
        proof {
            self.options.4.lemma_parse_bounds(
                input.input,
                ctx.is_in_error_recovery,
                exec_state(ctx, Seq::empty(), eh, input),
            );
        }
        match self.options.4.parse(ctx, eh, input) {
            Ok(None) => {},
            other => return other,
        }
        proof {
            self.options.5.lemma_parse_bounds(
                input.input,
                ctx.is_in_error_recovery,
                exec_state(ctx, Seq::empty(), eh, input),
            );
        }
        match self.options.5.parse(ctx, eh, input) {
            Ok(None) => {},
            other => return other,
        }
        proof {
            self.options.6.lemma_parse_bounds(
                input.input,
                ctx.is_in_error_recovery,
                exec_state(ctx, Seq::empty(), eh, input),
            );
        }
        match self.options.6.parse(ctx, eh, input) {
            Ok(None) => {},
            other => return other,
        }
        self.options.7.parse(ctx, eh, input)
    }
}

impl<
    Inp: Input,
    V,
    A: Parser<Inp, V>,
    B: Parser<Inp, V, Output = A::Output>,
    C: Parser<Inp, V, Output = A::Output>,
    D: Parser<Inp, V, Output = A::Output>,
    E: Parser<Inp, V, Output = A::Output>,
    F: Parser<Inp, V, Output = A::Output>,
    G: Parser<Inp, V, Output = A::Output>,
    H: Parser<Inp, V, Output = A::Output>,
    I: Parser<Inp, V, Output = A::Output>,
> Parser<Inp, V> for OneOf<(A, B, C, D, E, F, G, H, I)> {
    type Output = A::Output;

    open spec fn wf(&self) -> bool {
        self.options.0.wf() && self.options.1.wf() && self.options.2.wf() && self.options.3.wf() && self.options.4.wf() && self.options.5.wf() && self.options.6.wf() && self.options.7.wf() && self.options.8.wf()
    }

    open spec fn spec_label(&self) -> Option<Seq<char>> {
        None
    }

    open spec fn spec_parse(&self, inp: Inp, rec: bool, s: State<V>) -> (Outcome<Option<A::Output>>, State<V>) {
        let (o1, s1) = self.options.0.spec_parse(inp, rec, s);
        match o1 {
            Outcome::Done(None) => (OneOf { options: (self.options.1, self.options.2, self.options.3, self.options.4, self.options.5, self.options.6, self.options.7, self.options.8) }).spec_parse(inp, rec, s1),
            _ => (o1, s1),
        }
    }

    proof fn lemma_parse_bounds(&self, inp: Inp, rec: bool, s: State<V>) {
        self.options.0.lemma_parse_bounds(inp, rec, s);
        let (o1, s1) = self.options.0.spec_parse(inp, rec, s);
        if o1 == Outcome::<Option<A::Output>>::Done(None) {
            let rest = OneOf { options: (self.options.1, self.options.2, self.options.3, self.options.4, self.options.5, self.options.6, self.options.7, self.options.8) };
            rest.lemma_parse_bounds(inp, rec, s1);
            lemma_grows_trans(s, s1, rest.spec_parse(inp, rec, s1).1);
        }
    }

    proof fn lemma_parse_handler_blind(&self, inp: Inp, rec: bool, s: State<V>, eh2: HandlerModel) {
        self.options.0.lemma_parse_bounds(inp, rec, s);
        self.options.0.lemma_parse_handler_blind(inp, rec, s, eh2);
        self.options.0.lemma_parse_handler_blind(inp, rec, s.with_eh(eh2), s.eh);
        let (o1, s1) = self.options.0.spec_parse(inp, rec, s);
        let (o1b, s1b) = self.options.0.spec_parse(inp, rec, s.with_eh(eh2));
        if o1 == Outcome::<Option<A::Output>>::Done(None) {
            let e = if o1b == Outcome::<Option<A::Output>>::Done(None) { s1b.eh } else { s1.eh };
            if o1b == Outcome::<Option<A::Output>>::Done(None) {
                assert(s1b == s1.with_eh(s1b.eh));
            }
            (OneOf { options: (self.options.1, self.options.2, self.options.3, self.options.4, self.options.5, self.options.6, self.options.7, self.options.8) }).lemma_parse_handler_blind(inp, rec, s1, e);
        }
    }

    fn maybe_label(&self) -> (l: Option<String>) {
        None
    }

    #[verifier::rlimit(50)]
    fn parse<EH: ErrorHandler>(
        &self,
        ctx: &mut ParserContext<V>,
        eh: &mut EH,
        input: &mut InputStream<Inp>,
    ) -> (r: Result<Option<A::Output>, MatcherRunError>) {
        proof {
            self.options.0.lemma_parse_bounds(
                input.input,
                ctx.is_in_error_recovery,
                exec_state(ctx, Seq::empty(), eh, input),
            );
        }
        match self.options.0.parse(ctx, eh, input) {
            Ok(None) => {},
            other => return other,
        }
        proof {
            self.options.1.lemma_parse_bounds(
                input.input,
                ctx.is_in_error_recovery,
                exec_state(ctx, Seq::empty(), eh, input),
            );
        }
        match self.options.1.parse(ctx, eh, input) {
            Ok(None) => {},
            other => return other,
        }
        proof {
            self.options.2.lemma_parse_bounds(
                input.input,
                ctx.is_in_error_recovery,
                exec_state(ctx, Seq::empty(), eh, input),
            );
        }
        match self.options.2.parse(ctx, eh, input) {
            Ok(None) => {},
            other => return other,
        }
        proof {
            self.options.3.lemma_parse_bounds(
                input.input,
                ctx.is_in_error_recovery,
                exec_state(ctx, Seq::empty(), eh, input),
            );
        }
        match self.options.3.parse(ctx, eh, input) {
            Ok(None) => {},
            other => return other,
        }
        proof {
            self.options.4.lemma_parse_bounds(
                input.input,
                ctx.is_in_error_recovery,
                exec_state(ctx, Seq::empty(), eh, input),
            );
        }
        match self.options.4.parse(ctx, eh, input) {
            Ok(None) => {},
            other => return other,
        }
        proof {
            self.options.5.lemma_parse_bounds(
                input.input,
                ctx.is_in_error_recovery,
                exec_state(ctx, Seq::empty(), eh, input),
            );
        }
        match self.options.5.parse(ctx, eh, input) {
            Ok(None) => {},
            other => return other,
        }
        proof {
            self.options.6.lemma_parse_bounds(
                input.input,
                ctx.is_in_error_recovery,
                exec_state(ctx, Seq::empty(), eh, input),
            );
        }
        match self.options.6.parse(ctx, eh, input) {
            Ok(None) => {},
            other => return other,
        }
        proof {
            self.options.7.lemma_parse_bounds(
                input.input,
                ctx.is_in_error_recovery,
                exec_state(ctx, Seq::empty(), eh, input),
            );
        }
        match self.options.7.parse(ctx, eh, input) {
            Ok(None) => {},
            other => return other,
        }
        self.options.8.parse(ctx, eh, input)
    }
}

impl<
    Inp: Input,
    V,
    A: Parser<Inp, V>,
    B: Parser<Inp, V, Output = A::Output>,
    C: Parser<Inp, V, Output = A::Output>,
    D: Parser<Inp, V, Output = A::Output>,
    E: Parser<Inp, V, Output = A::Output>,
    F: Parser<Inp, V, Output = A::Output>,
    G: Parser<Inp, V, Output = A::Output>,
    H: Parser<Inp, V, Output = A::Output>,
    I: Parser<Inp, V, Output = A::Output>,
    J: Parser<Inp, V, Output = A::Output>,
> Parser<Inp, V> for OneOf<(A, B, C, D, E, F, G, H, I, J)> {
    type Output = A::Output;

    open spec fn wf(&self) -> bool {
        self.options.0.wf() && self.options.1.wf() && self.options.2.wf() && self.options.3.wf() && self.options.4.wf() && self.options.5.wf() && self.options.6.wf() && self.options.7.wf() && self.options.8.wf() && self.options.9.wf()
    }

    open spec fn spec_label(&self) -> Option<Seq<char>> {
        None
    }

    open spec fn spec_parse(&self, inp: Inp, rec: bool, s: State<V>) -> (Outcome<Option<A::Output>>, State<V>) {
        let (o1, s1) = self.options.0.spec_parse(inp, rec, s);
        match o1 {
            Outcome::Done(None) => (OneOf { options: (self.options.1, self.options.2, self.options.3, self.options.4, self.options.5, self.options.6, self.options.7, self.options.8, self.options.9) }).spec_parse(inp, rec, s1),
            _ => (o1, s1),
        }
    }

    proof fn lemma_parse_bounds(&self, inp: Inp, rec: bool, s: State<V>) {
        self.options.0.lemma_parse_bounds(inp, rec, s);
        let (o1, s1) = self.options.0.spec_parse(inp, rec, s);
        if o1 == Outcome::<Option<A::Output>>::Done(None) {
            let rest = OneOf { options: (self.options.1, self.options.2, self.options.3, self.options.4, self.options.5, self.options.6, self.options.7, self.options.8, self.options.9) };
            rest.lemma_parse_bounds(inp, rec, s1);
            lemma_grows_trans(s, s1, rest.spec_parse(inp, rec, s1).1);
        }
    }

    proof fn lemma_parse_handler_blind(&self, inp: Inp, rec: bool, s: State<V>, eh2: HandlerModel) {
        self.options.0.lemma_parse_bounds(inp, rec, s);
        self.options.0.lemma_parse_handler_blind(inp, rec, s, eh2);
        self.options.0.lemma_parse_handler_blind(inp, rec, s.with_eh(eh2), s.eh);
        let (o1, s1) = self.options.0.spec_parse(inp, rec, s);
        let (o1b, s1b) = self.options.0.spec_parse(inp, rec, s.with_eh(eh2));
        if o1 == Outcome::<Option<A::Output>>::Done(None) {
            let e = if o1b == Outcome::<Option<A::Output>>::Done(None) { s1b.eh } else { s1.eh };
            if o1b == Outcome::<Option<A::Output>>::Done(None) {
                assert(s1b == s1.with_eh(s1b.eh));
            }
            (OneOf { options: (self.options.1, self.options.2, self.options.3, self.options.4, self.options.5, self.options.6, self.options.7, self.options.8, self.options.9) }).lemma_parse_handler_blind(inp, rec, s1, e);
        }
    }

    fn maybe_label(&self) -> (l: Option<String>) {
        None
    }

    #[verifier::rlimit(50)]
    fn parse<EH: ErrorHandler>(
        &self,
        ctx: &mut ParserContext<V>,
        eh: &mut EH,
        input: &mut InputStream<Inp>,
    ) -> (r: Result<Option<A::Output>, MatcherRunError>) {
        proof {
            self.options.0.lemma_parse_bounds(
                input.input,
                ctx.is_in_error_recovery,
                exec_state(ctx, Seq::empty(), eh, input),
            );
        }
        match self.options.0.parse(ctx, eh, input) {
            Ok(None) => {},
            other => return other,
        }
        proof {
            self.options.1.lemma_parse_bounds(
                input.input,
                ctx.is_in_error_recovery,
                exec_state(ctx, Seq::empty(), eh, input),
            );
        }
        match self.options.1.parse(ctx, eh, input) {
            Ok(None) => {},
            other => return other,
        }
        proof {
            self.options.2.lemma_parse_bounds(
                input.input,
                ctx.is_in_error_recovery,
                exec_state(ctx, Seq::empty(), eh, input),
            );
        }
        match self.options.2.parse(ctx, eh, input) {
            Ok(None) => {},
            other => return other,
        }
        proof {
            self.options.3.lemma_parse_bounds(
                input.input,
                ctx.is_in_error_recovery,
                exec_state(ctx, Seq::empty(), eh, input),
            );
        }
        match self.options.3.parse(ctx, eh, input) {
            Ok(None) => {},
            other => return other,
        }
        proof {
            self.options.4.lemma_parse_bounds(
                input.input,
                ctx.is_in_error_recovery,
                exec_state(ctx, Seq::empty(), eh, input),
            );
        }
        match self.options.4.parse(ctx, eh, input) {
            Ok(None) => {},
            other => return other,
        }
        proof {
            self.options.5.lemma_parse_bounds(
                input.input,
                ctx.is_in_error_recovery,
                exec_state(ctx, Seq::empty(), eh, input),
            );
        }
        match self.options.5.parse(ctx, eh, input) {
            Ok(None) => {},
            other => return other,
        }
        proof {
            self.options.6.lemma_parse_bounds(
                input.input,
                ctx.is_in_error_recovery,
                exec_state(ctx, Seq::empty(), eh, input),
            );
        }
        match self.options.6.parse(ctx, eh, input) {
            Ok(None) => {},
            other => return other,
        }
        proof {
            self.options.7.lemma_parse_bounds(
                input.input,
                ctx.is_in_error_recovery,
                exec_state(ctx, Seq::empty(), eh, input),
            );
        }
        match self.options.7.parse(ctx, eh, input) {
            Ok(None) => {},
            other => return other,
        }
        proof {
            self.options.8.lemma_parse_bounds(
                input.input,
                ctx.is_in_error_recovery,
                exec_state(ctx, Seq::empty(), eh, input),
            );
        }
        match self.options.8.parse(ctx, eh, input) {
            Ok(None) => {},
            other => return other,
        }
        self.options.9.parse(ctx, eh, input)
    }
}

impl<
    Inp: Input,
    V,
    A: Parser<Inp, V>,
    B: Parser<Inp, V, Output = A::Output>,
    C: Parser<Inp, V, Output = A::Output>,
    D: Parser<Inp, V, Output = A::Output>,
    E: Parser<Inp, V, Output = A::Output>,
    F: Parser<Inp, V, Output = A::Output>,
    G: Parser<Inp, V, Output = A::Output>,
    H: Parser<Inp, V, Output = A::Output>,
    I: Parser<Inp, V, Output = A::Output>,
    J: Parser<Inp, V, Output = A::Output>,
    K: Parser<Inp, V, Output = A::Output>,
> Parser<Inp, V> for OneOf<(A, B, C, D, E, F, G, H, I, J, K)> {
    type Output = A::Output;

    open spec fn wf(&self) -> bool {
        self.options.0.wf() && self.options.1.wf() && self.options.2.wf() && self.options.3.wf() && self.options.4.wf() && self.options.5.wf() && self.options.6.wf() && self.options.7.wf() && self.options.8.wf() && self.options.9.wf() && self.options.10.wf()
    }

    open spec fn spec_label(&self) -> Option<Seq<char>> {
        None
    }

    open spec fn spec_parse(&self, inp: Inp, rec: bool, s: State<V>) -> (Outcome<Option<A::Output>>, State<V>) {
        let (o1, s1) = self.options.0.spec_parse(inp, rec, s);
        match o1 {
            Outcome::Done(None) => (OneOf { options: (self.options.1, self.options.2, self.options.3, self.options.4, self.options.5, self.options.6, self.options.7, self.options.8, self.options.9, self.options.10) }).spec_parse(inp, rec, s1),
            _ => (o1, s1),
        }
    }

    proof fn lemma_parse_bounds(&self, inp: Inp, rec: bool, s: State<V>) {
        self.options.0.lemma_parse_bounds(inp, rec, s);
        let (o1, s1) = self.options.0.spec_parse(inp, rec, s);
        if o1 == Outcome::<Option<A::Output>>::Done(None) {
            let rest = OneOf { options: (self.options.1, self.options.2, self.options.3, self.options.4, self.options.5, self.options.6, self.options.7, self.options.8, self.options.9, self.options.10) };
            rest.lemma_parse_bounds(inp, rec, s1);
            lemma_grows_trans(s, s1, rest.spec_parse(inp, rec, s1).1);
        }
    }

    proof fn lemma_parse_handler_blind(&self, inp: Inp, rec: bool, s: State<V>, eh2: HandlerModel) {
        self.options.0.lemma_parse_bounds(inp, rec, s);
        self.options.0.lemma_parse_handler_blind(inp, rec, s, eh2);
        self.options.0.lemma_parse_handler_blind(inp, rec, s.with_eh(eh2), s.eh);
        let (o1, s1) = self.options.0.spec_parse(inp, rec, s);
        let (o1b, s1b) = self.options.0.spec_parse(inp, rec, s.with_eh(eh2));
        if o1 == Outcome::<Option<A::Output>>::Done(None) {
            let e = if o1b == Outcome::<Option<A::Output>>::Done(None) { s1b.eh } else { s1.eh };
            if o1b == Outcome::<Option<A::Output>>::Done(None) {
                assert(s1b == s1.with_eh(s1b.eh));
            }
            (OneOf { options: (self.options.1, self.options.2, self.options.3, self.options.4, self.options.5, self.options.6, self.options.7, self.options.8, self.options.9, self.options.10) }).lemma_parse_handler_blind(inp, rec, s1, e);
        }
    }

    fn maybe_label(&self) -> (l: Option<String>) {
        None
    }

    #[verifier::rlimit(50)]
    fn parse<EH: ErrorHandler>(
        &self,
        ctx: &mut ParserContext<V>,
        eh: &mut EH,
        input: &mut InputStream<Inp>,
    ) -> (r: Result<Option<A::Output>, MatcherRunError>) {
        proof {
            self.options.0.lemma_parse_bounds(
                input.input,
                ctx.is_in_error_recovery,
                exec_state(ctx, Seq::empty(), eh, input),
            );
        }
        match self.options.0.parse(ctx, eh, input) {
            Ok(None) => {},
            other => return other,
        }
        proof {
            self.options.1.lemma_parse_bounds(
                input.input,
                ctx.is_in_error_recovery,
                exec_state(ctx, Seq::empty(), eh, input),
            );
        }
        match self.options.1.parse(ctx, eh, input) {
            Ok(None) => {},
            other => return other,
        }
        proof {
            self.options.2.lemma_parse_bounds(
                input.input,
                ctx.is_in_error_recovery,
                exec_state(ctx, Seq::empty(), eh, input),
            );
        }
        match self.options.2.parse(ctx, eh, input) {
            Ok(None) => {},
            other => return other,
        }
        proof {
            self.options.3.lemma_parse_bounds(
                input.input,
                ctx.is_in_error_recovery,
                exec_state(ctx, Seq::empty(), eh, input),
            );
        }
        match self.options.3.parse(ctx, eh, input) {
            Ok(None) => {},
            other => return other,
        }
        proof {
            self.options.4.lemma_parse_bounds(
                input.input,
                ctx.is_in_error_recovery,
                exec_state(ctx, Seq::empty(), eh, input),
            );
        }
        match self.options.4.parse(ctx, eh, input) {
            Ok(None) => {},
            other => return other,
        }
        proof {
            self.options.5.lemma_parse_bounds(
                input.input,
                ctx.is_in_error_recovery,
                exec_state(ctx, Seq::empty(), eh, input),
            );
        }
        match self.options.5.parse(ctx, eh, input) {
            Ok(None) => {},
            other => return other,
        }
        proof {
            self.options.6.lemma_parse_bounds(
                input.input,
                ctx.is_in_error_recovery,
                exec_state(ctx, Seq::empty(), eh, input),
            );
        }
        match self.options.6.parse(ctx, eh, input) {
            Ok(None) => {},
            other => return other,
        }
        proof {
            self.options.7.lemma_parse_bounds(
                input.input,
                ctx.is_in_error_recovery,
                exec_state(ctx, Seq::empty(), eh, input),
            );
        }
        match self.options.7.parse(ctx, eh, input) {
            Ok(None) => {},
            other => return other,
        }
        proof {
            self.options.8.lemma_parse_bounds(
                input.input,
                ctx.is_in_error_recovery,
                exec_state(ctx, Seq::empty(), eh, input),
            );
        }
        match self.options.8.parse(ctx, eh, input) {
            Ok(None) => {},
            other => return other,
        }
        proof {
            self.options.9.lemma_parse_bounds(
                input.input,
                ctx.is_in_error_recovery,
                exec_state(ctx, Seq::empty(), eh, input),
            );
        }
        match self.options.9.parse(ctx, eh, input) {
            Ok(None) => {},
            other => return other,
        }
        self.options.10.parse(ctx, eh, input)
    }
}

impl<
    Inp: Input,
    V,
    A: Parser<Inp, V>,
    B: Parser<Inp, V, Output = A::Output>,
    C: Parser<Inp, V, Output = A::Output>,
    D: Parser<Inp, V, Output = A::Output>,
    E: Parser<Inp, V, Output = A::Output>,
    F: Parser<Inp, V, Output = A::Output>,
    G: Parser<Inp, V, Output = A::Output>,
    H: Parser<Inp, V, Output = A::Output>,
    I: Parser<Inp, V, Output = A::Output>,
    J: Parser<Inp, V, Output = A::Output>,
    K: Parser<Inp, V, Output = A::Output>,
    L: Parser<Inp, V, Output = A::Output>,
> Parser<Inp, V> for OneOf<(A, B, C, D, E, F, G, H, I, J, K, L)> {
    type Output = A::Output;

    open spec fn wf(&self) -> bool {
        self.options.0.wf() && self.options.1.wf() && self.options.2.wf() && self.options.3.wf() && self.options.4.wf() && self.options.5.wf() && self.options.6.wf() && self.options.7.wf() && self.options.8.wf() && self.options.9.wf() && self.options.10.wf() && self.options.11.wf()
    }

    open spec fn spec_label(&self) -> Option<Seq<char>> {
        None
    }

    open spec fn spec_parse(&self, inp: Inp, rec: bool, s: State<V>) -> (Outcome<Option<A::Output>>, State<V>) {
        let (o1, s1) = self.options.0.spec_parse(inp, rec, s);
        match o1 {
            Outcome::Done(None) => (OneOf { options: (self.options.1, self.options.2, self.options.3, self.options.4, self.options.5, self.options.6, self.options.7, self.options.8, self.options.9, self.options.10, self.options.11) }).spec_parse(inp, rec, s1),
            _ => (o1, s1),
        }
    }

    proof fn lemma_parse_bounds(&self, inp: Inp, rec: bool, s: State<V>) {
        self.options.0.lemma_parse_bounds(inp, rec, s);
        let (o1, s1) = self.options.0.spec_parse(inp, rec, s);
        if o1 == Outcome::<Option<A::Output>>::Done(None) {
            let rest = OneOf { options: (self.options.1, self.options.2, self.options.3, self.options.4, self.options.5, self.options.6, self.options.7, self.options.8, self.options.9, self.options.10, self.options.11) };
            rest.lemma_parse_bounds(inp, rec, s1);
            lemma_grows_trans(s, s1, rest.spec_parse(inp, rec, s1).1);
        }
    }

    proof fn lemma_parse_handler_blind(&self, inp: Inp, rec: bool, s: State<V>, eh2: HandlerModel) {
        self.options.0.lemma_parse_bounds(inp, rec, s);
        self.options.0.lemma_parse_handler_blind(inp, rec, s, eh2);
        self.options.0.lemma_parse_handler_blind(inp, rec, s.with_eh(eh2), s.eh);
        let (o1, s1) = self.options.0.spec_parse(inp, rec, s);
        let (o1b, s1b) = self.options.0.spec_parse(inp, rec, s.with_eh(eh2));
        if o1 == Outcome::<Option<A::Output>>::Done(None) {
            let e = if o1b == Outcome::<Option<A::Output>>::Done(None) { s1b.eh } else { s1.eh };
            if o1b == Outcome::<Option<A::Output>>::Done(None) {
                assert(s1b == s1.with_eh(s1b.eh));
            }
            (OneOf { options: (self.options.1, self.options.2, self.options.3, self.options.4, self.options.5, self.options.6, self.options.7, self.options.8, self.options.9, self.options.10, self.options.11) }).lemma_parse_handler_blind(inp, rec, s1, e);
        }
    }

    fn maybe_label(&self) -> (l: Option<String>) {
        None
    }

    #[verifier::rlimit(50)]
    fn parse<EH: ErrorHandler>(
        &self,
        ctx: &mut ParserContext<V>,
        eh: &mut EH,
        input: &mut InputStream<Inp>,
    ) -> (r: Result<Option<A::Output>, MatcherRunError>) {
        proof {
            self.options.0.lemma_parse_bounds(
                input.input,
                ctx.is_in_error_recovery,
                exec_state(ctx, Seq::empty(), eh, input),
            );
        }
        match self.options.0.parse(ctx, eh, input) {
            Ok(None) => {},
            other => return other,
        }
        proof {
            self.options.1.lemma_parse_bounds(
                input.input,
                ctx.is_in_error_recovery,
                exec_state(ctx, Seq::empty(), eh, input),
            );
        }
        match self.options.1.parse(ctx, eh, input) {
            Ok(None) => {},
            other => return other,
        }
        proof {
            self.options.2.lemma_parse_bounds(
                input.input,
                ctx.is_in_error_recovery,
                exec_state(ctx, Seq::empty(), eh, input),
            );
        }
        match self.options.2.parse(ctx, eh, input) {
            Ok(None) => {},
            other => return other,
        }
        proof {
            self.options.3.lemma_parse_bounds(
                input.input,
                ctx.is_in_error_recovery,
                exec_state(ctx, Seq::empty(), eh, input),
            );
        }
        match self.options.3.parse(ctx, eh, input) {
            Ok(None) => {},
            other => return other,
        }
        proof {
            self.options.4.lemma_parse_bounds(
                input.input,
                ctx.is_in_error_recovery,
                exec_state(ctx, Seq::empty(), eh, input),
            );
        }
        match self.options.4.parse(ctx, eh, input) {
            Ok(None) => {},
            other => return other,
        }
        proof {
            self.options.5.lemma_parse_bounds(
                input.input,
                ctx.is_in_error_recovery,
                exec_state(ctx, Seq::empty(), eh, input),
            );
        }
        match self.options.5.parse(ctx, eh, input) {
            Ok(None) => {},
            other => return other,
        }
        proof {
            self.options.6.lemma_parse_bounds(
                input.input,
                ctx.is_in_error_recovery,
                exec_state(ctx, Seq::empty(), eh, input),
            );
        }
        match self.options.6.parse(ctx, eh, input) {
            Ok(None) => {},
            other => return other,
        }
        proof {
            self.options.7.lemma_parse_bounds(
                input.input,
                ctx.is_in_error_recovery,
                exec_state(ctx, Seq::empty(), eh, input),
            );
        }
        match self.options.7.parse(ctx, eh, input) {
            Ok(None) => {},
            other => return other,
        }
        proof {
            self.options.8.lemma_parse_bounds(
                input.input,
                ctx.is_in_error_recovery,
                exec_state(ctx, Seq::empty(), eh, input),
            );
        }
        match self.options.8.parse(ctx, eh, input) {
            Ok(None) => {},
            other => return other,
        }
        proof {
            self.options.9.lemma_parse_bounds(
                input.input,
                ctx.is_in_error_recovery,
                exec_state(ctx, Seq::empty(), eh, input),
            );
        }
        match self.options.9.parse(ctx, eh, input) {
            Ok(None) => {},
            other => return other,
        }
        proof {
            self.options.10.lemma_parse_bounds(
                input.input,
                ctx.is_in_error_recovery,
                exec_state(ctx, Seq::empty(), eh, input),
            );
        }
        match self.options.10.parse(ctx, eh, input) {
            Ok(None) => {},
            other => return other,
        }
        self.options.11.parse(ctx, eh, input)
    }
}


/// A parser choice of one alternative is that alternative's run.
pub proof fn lemma_parser_one_of1_order<Inp: Input, V, A: Parser<Inp, V>>(m: OneOf<(A,)>, inp: Inp, rec: bool, s: State<V>)
    ensures
        <OneOf<(A,)> as Parser<Inp, V>>::spec_parse(&m, inp, rec, s) == m.options.0.spec_parse(inp, rec, s),
{
}

/// A parser choice of 2 alternatives runs the first alternative first: where it produces
/// a value or aborts, that is the choice's outcome at the state it left; only where it
/// produces nothing are the other alternatives tried, in order, from that state.
pub proof fn lemma_parser_one_of2_order<Inp: Input, V, A: Parser<Inp, V>, B: Parser<Inp, V, Output = A::Output>>(m: OneOf<(A, B)>, inp: Inp, rec: bool, s: State<V>)
    ensures
        ({
            let (o1, s1) = m.options.0.spec_parse(inp, rec, s);
            let r = <OneOf<(A, B)> as Parser<Inp, V>>::spec_parse(&m, inp, rec, s);
            &&& o1 == Outcome::<Option<A::Output>>::Done(None) ==> r == <OneOf<(B,)> as Parser<Inp, V>>::spec_parse(&OneOf { options: (m.options.1,) }, inp, rec, s1)
            &&& o1 != Outcome::<Option<A::Output>>::Done(None) ==> r == (o1, s1)
        }),
{
}

/// A parser choice of 3 alternatives runs the first alternative first: where it produces
/// a value or aborts, that is the choice's outcome at the state it left; only where it
/// produces nothing are the other alternatives tried, in order, from that state.
pub proof fn lemma_parser_one_of3_order<Inp: Input, V, A: Parser<Inp, V>, B: Parser<Inp, V, Output = A::Output>, C: Parser<Inp, V, Output = A::Output>>(m: OneOf<(A, B, C)>, inp: Inp, rec: bool, s: State<V>)
    ensures
        ({
            let (o1, s1) = m.options.0.spec_parse(inp, rec, s);
            let r = <OneOf<(A, B, C)> as Parser<Inp, V>>::spec_parse(&m, inp, rec, s);
            &&& o1 == Outcome::<Option<A::Output>>::Done(None) ==> r == <OneOf<(B, C)> as Parser<Inp, V>>::spec_parse(&OneOf { options: (m.options.1, m.options.2) }, inp, rec, s1)
            &&& o1 != Outcome::<Option<A::Output>>::Done(None) ==> r == (o1, s1)
        }),
{
}

/// A parser choice of 4 alternatives runs the first alternative first: where it produces
/// a value or aborts, that is the choice's outcome at the state it left; only where it
/// produces nothing are the other alternatives tried, in order, from that state.
pub proof fn lemma_parser_one_of4_order<Inp: Input, V, A: Parser<Inp, V>, B: Parser<Inp, V, Output = A::Output>, C: Parser<Inp, V, Output = A::Output>, D: Parser<Inp, V, Output = A::Output>>(m: OneOf<(A, B, C, D)>, inp: Inp, rec: bool, s: State<V>)
    ensures
        ({
            let (o1, s1) = m.options.0.spec_parse(inp, rec, s);
            let r = <OneOf<(A, B, C, D)> as Parser<Inp, V>>::spec_parse(&m, inp, rec, s);
            &&& o1 == Outcome::<Option<A::Output>>::Done(None) ==> r == <OneOf<(B, C, D)> as Parser<Inp, V>>::spec_parse(&OneOf { options: (m.options.1, m.options.2, m.options.3) }, inp, rec, s1)
            &&& o1 != Outcome::<Option<A::Output>>::Done(None) ==> r == (o1, s1)
        }),
{
}

/// A parser choice of 5 alternatives runs the first alternative first: where it produces
/// a value or aborts, that is the choice's outcome at the state it left; only where it
/// produces nothing are the other alternatives tried, in order, from that state.
pub proof fn lemma_parser_one_of5_order<Inp: Input, V, A: Parser<Inp, V>, B: Parser<Inp, V, Output = A::Output>, C: Parser<Inp, V, Output = A::Output>, D: Parser<Inp, V, Output = A::Output>, E: Parser<Inp, V, Output = A::Output>>(m: OneOf<(A, B, C, D, E)>, inp: Inp, rec: bool, s: State<V>)
    ensures
        ({
            let (o1, s1) = m.options.0.spec_parse(inp, rec, s);
            let r = <OneOf<(A, B, C, D, E)> as Parser<Inp, V>>::spec_parse(&m, inp, rec, s);
            &&& o1 == Outcome::<Option<A::Output>>::Done(None) ==> r == <OneOf<(B, C, D, E)> as Parser<Inp, V>>::spec_parse(&OneOf { options: (m.options.1, m.options.2, m.options.3, m.options.4) }, inp, rec, s1)
            &&& o1 != Outcome::<Option<A::Output>>::Done(None) ==> r == (o1, s1)
        }),
{
}

/// A parser choice of 6 alternatives runs the first alternative first: where it produces
/// a value or aborts, that is the choice's outcome at the state it left; only where it
/// produces nothing are the other alternatives tried, in order, from that state.
pub proof fn lemma_parser_one_of6_order<Inp: Input, V, A: Parser<Inp, V>, B: Parser<Inp, V, Output = A::Output>, C: Parser<Inp, V, Output = A::Output>, D: Parser<Inp, V, Output = A::Output>, E: Parser<Inp, V, Output = A::Output>, F: Parser<Inp, V, Output = A::Output>>(m: OneOf<(A, B, C, D, E, F)>, inp: Inp, rec: bool, s: State<V>)
    ensures
        ({
            let (o1, s1) = m.options.0.spec_parse(inp, rec, s);
            let r = <OneOf<(A, B, C, D, E, F)> as Parser<Inp, V>>::spec_parse(&m, inp, rec, s);
            &&& o1 == Outcome::<Option<A::Output>>::Done(None) ==> r == <OneOf<(B, C, D, E, F)> as Parser<Inp, V>>::spec_parse(&OneOf { options: (m.options.1, m.options.2, m.options.3, m.options.4, m.options.5) }, inp, rec, s1)
            &&& o1 != Outcome::<Option<A::Output>>::Done(None) ==> r == (o1, s1)
        }),
{
}

/// A parser choice of 7 alternatives runs the first alternative first: where it produces
/// a value or aborts, that is the choice's outcome at the state it left; only where it
/// produces nothing are the other alternatives tried, in order, from that state.
pub proof fn lemma_parser_one_of7_order<Inp: Input, V, A: Parser<Inp, V>, B: Parser<Inp, V, Output = A::Output>, C: Parser<Inp, V, Output = A::Output>, D: Parser<Inp, V, Output = A::Output>, E: Parser<Inp, V, Output = A::Output>, F: Parser<Inp, V, Output = A::Output>, G: Parser<Inp, V, Output = A::Output>>(m: OneOf<(A, B, C, D, E, F, G)>, inp: Inp, rec: bool, s: State<V>)
    ensures
        ({
            let (o1, s1) = m.options.0.spec_parse(inp, rec, s);
            let r = <OneOf<(A, B, C, D, E, F, G)> as Parser<Inp, V>>::spec_parse(&m, inp, rec, s);
            &&& o1 == Outcome::<Option<A::Output>>::Done(None) ==> r == <OneOf<(B, C, D, E, F, G)> as Parser<Inp, V>>::spec_parse(&OneOf { options: (m.options.1, m.options.2, m.options.3, m.options.4, m.options.5, m.options.6) }, inp, rec, s1)
            &&& o1 != Outcome::<Option<A::Output>>::Done(None) ==> r == (o1, s1)
        }),
{
}

/// A parser choice of 8 alternatives runs the first alternative first: where it produces
/// a value or aborts, that is the choice's outcome at the state it left; only where it
/// produces nothing are the other alternatives tried, in order, from that state.
pub proof fn lemma_parser_one_of8_order<Inp: Input, V, A: Parser<Inp, V>, B: Parser<Inp, V, Output = A::Output>, C: Parser<Inp, V, Output = A::Output>, D: Parser<Inp, V, Output = A::Output>, E: Parser<Inp, V, Output = A::Output>, F: Parser<Inp, V, Output = A::Output>, G: Parser<Inp, V, Output = A::Output>, H: Parser<Inp, V, Output = A::Output>>(m: OneOf<(A, B, C, D, E, F, G, H)>, inp: Inp, rec: bool, s: State<V>)
    ensures
        ({
            let (o1, s1) = m.options.0.spec_parse(inp, rec, s);
            let r = <OneOf<(A, B, C, D, E, F, G, H)> as Parser<Inp, V>>::spec_parse(&m, inp, rec, s);
            &&& o1 == Outcome::<Option<A::Output>>::Done(None) ==> r == <OneOf<(B, C, D, E, F, G, H)> as Parser<Inp, V>>::spec_parse(&OneOf { options: (m.options.1, m.options.2, m.options.3, m.options.4, m.options.5, m.options.6, m.options.7) }, inp, rec, s1)
            &&& o1 != Outcome::<Option<A::Output>>::Done(None) ==> r == (o1, s1)
        }),
{
}

/// A parser choice of 9 alternatives runs the first alternative first: where it produces
/// a value or aborts, that is the choice's outcome at the state it left; only where it
/// produces nothing are the other alternatives tried, in order, from that state.
pub proof fn lemma_parser_one_of9_order<Inp: Input, V, A: Parser<Inp, V>, B: Parser<Inp, V, Output = A::Output>, C: Parser<Inp, V, Output = A::Output>, D: Parser<Inp, V, Output = A::Output>, E: Parser<Inp, V, Output = A::Output>, F: Parser<Inp, V, Output = A::Output>, G: Parser<Inp, V, Output = A::Output>, H: Parser<Inp, V, Output = A::Output>, I: Parser<Inp, V, Output = A::Output>>(m: OneOf<(A, B, C, D, E, F, G, H, I)>, inp: Inp, rec: bool, s: State<V>)
    ensures
        ({
            let (o1, s1) = m.options.0.spec_parse(inp, rec, s);
            let r = <OneOf<(A, B, C, D, E, F, G, H, I)> as Parser<Inp, V>>::spec_parse(&m, inp, rec, s);
            &&& o1 == Outcome::<Option<A::Output>>::Done(None) ==> r == <OneOf<(B, C, D, E, F, G, H, I)> as Parser<Inp, V>>::spec_parse(&OneOf { options: (m.options.1, m.options.2, m.options.3, m.options.4, m.options.5, m.options.6, m.options.7, m.options.8) }, inp, rec, s1)
            &&& o1 != Outcome::<Option<A::Output>>::Done(None) ==> r == (o1, s1)
        }),
{
}

/// A parser choice of 10 alternatives runs the first alternative first: where it produces
/// a value or aborts, that is the choice's outcome at the state it left; only where it
/// produces nothing are the other alternatives tried, in order, from that state.
pub proof fn lemma_parser_one_of10_order<Inp: Input, V, A: Parser<Inp, V>, B: Parser<Inp, V, Output = A::Output>, C: Parser<Inp, V, Output = A::Output>, D: Parser<Inp, V, Output = A::Output>, E: Parser<Inp, V, Output = A::Output>, F: Parser<Inp, V, Output = A::Output>, G: Parser<Inp, V, Output = A::Output>, H: Parser<Inp, V, Output = A::Output>, I: Parser<Inp, V, Output = A::Output>, J: Parser<Inp, V, Output = A::Output>>(m: OneOf<(A, B, C, D, E, F, G, H, I, J)>, inp: Inp, rec: bool, s: State<V>)
    ensures
        ({
            let (o1, s1) = m.options.0.spec_parse(inp, rec, s);
            let r = <OneOf<(A, B, C, D, E, F, G, H, I, J)> as Parser<Inp, V>>::spec_parse(&m, inp, rec, s);
            &&& o1 == Outcome::<Option<A::Output>>::Done(None) ==> r == <OneOf<(B, C, D, E, F, G, H, I, J)> as Parser<Inp, V>>::spec_parse(&OneOf { options: (m.options.1, m.options.2, m.options.3, m.options.4, m.options.5, m.options.6, m.options.7, m.options.8, m.options.9) }, inp, rec, s1)
            &&& o1 != Outcome::<Option<A::Output>>::Done(None) ==> r == (o1, s1)
        }),
{
}

/// A parser choice of 11 alternatives runs the first alternative first: where it produces
/// a value or aborts, that is the choice's outcome at the state it left; only where it
/// produces nothing are the other alternatives tried, in order, from that state.
pub proof fn lemma_parser_one_of11_order<Inp: Input, V, A: Parser<Inp, V>, B: Parser<Inp, V, Output = A::Output>, C: Parser<Inp, V, Output = A::Output>, D: Parser<Inp, V, Output = A::Output>, E: Parser<Inp, V, Output = A::Output>, F: Parser<Inp, V, Output = A::Output>, G: Parser<Inp, V, Output = A::Output>, H: Parser<Inp, V, Output = A::Output>, I: Parser<Inp, V, Output = A::Output>, J: Parser<Inp, V, Output = A::Output>, K: Parser<Inp, V, Output = A::Output>>(m: OneOf<(A, B, C, D, E, F, G, H, I, J, K)>, inp: Inp, rec: bool, s: State<V>)
    ensures
        ({
            let (o1, s1) = m.options.0.spec_parse(inp, rec, s);
            let r = <OneOf<(A, B, C, D, E, F, G, H, I, J, K)> as Parser<Inp, V>>::spec_parse(&m, inp, rec, s);
            &&& o1 == Outcome::<Option<A::Output>>::Done(None) ==> r == <OneOf<(B, C, D, E, F, G, H, I, J, K)> as Parser<Inp, V>>::spec_parse(&OneOf { options: (m.options.1, m.options.2, m.options.3, m.options.4, m.options.5, m.options.6, m.options.7, m.options.8, m.options.9, m.options.10) }, inp, rec, s1)
            &&& o1 != Outcome::<Option<A::Output>>::Done(None) ==> r == (o1, s1)
        }),
{
}

/// A parser choice of 12 alternatives runs the first alternative first: where it produces
/// a value or aborts, that is the choice's outcome at the state it left; only where it
/// produces nothing are the other alternatives tried, in order, from that state.
pub proof fn lemma_parser_one_of12_order<Inp: Input, V, A: Parser<Inp, V>, B: Parser<Inp, V, Output = A::Output>, C: Parser<Inp, V, Output = A::Output>, D: Parser<Inp, V, Output = A::Output>, E: Parser<Inp, V, Output = A::Output>, F: Parser<Inp, V, Output = A::Output>, G: Parser<Inp, V, Output = A::Output>, H: Parser<Inp, V, Output = A::Output>, I: Parser<Inp, V, Output = A::Output>, J: Parser<Inp, V, Output = A::Output>, K: Parser<Inp, V, Output = A::Output>, L: Parser<Inp, V, Output = A::Output>>(m: OneOf<(A, B, C, D, E, F, G, H, I, J, K, L)>, inp: Inp, rec: bool, s: State<V>)
    ensures
        ({
            let (o1, s1) = m.options.0.spec_parse(inp, rec, s);
            let r = <OneOf<(A, B, C, D, E, F, G, H, I, J, K, L)> as Parser<Inp, V>>::spec_parse(&m, inp, rec, s);
            &&& o1 == Outcome::<Option<A::Output>>::Done(None) ==> r == <OneOf<(B, C, D, E, F, G, H, I, J, K, L)> as Parser<Inp, V>>::spec_parse(&OneOf { options: (m.options.1, m.options.2, m.options.3, m.options.4, m.options.5, m.options.6, m.options.7, m.options.8, m.options.9, m.options.10, m.options.11) }, inp, rec, s1)
            &&& o1 != Outcome::<Option<A::Output>>::Done(None) ==> r == (o1, s1)
        }),
{
}


} // verus!
