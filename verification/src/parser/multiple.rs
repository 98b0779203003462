//! Repetition parsers that collect the outputs of an inner parser and combine them.
use vstd::prelude::*;
use crate::context::same_but_handler;
use crate::error_handler::HandlerModel;
use crate::context::{memo_ok, Outcome, ParserContext, State, exec_state};
use crate::error::MatcherRunError;
use crate::error_handler::ErrorHandler;
use crate::input::{Input, InputStream};
use crate::matcher::{grows, lemma_grows_same, lemma_grows_trans};
use crate::parser::Parser;

verus! {

/// `f` accepts every list and returns one value for each list contents.
pub open spec fn combine_exact<T, B, F: Fn(Vec<T>) -> B>(f: F) -> bool {
    &&& forall|v: Vec<T>| call_requires(f, (v,))
    &&& forall|v1: Vec<T>, v2: Vec<T>, b1: B, b2: B|
        v1@ == v2@ && #[trigger] call_ensures(f, (v1,), b1) && #[trigger] call_ensures(f, (v2,), b2)
            ==> b1 == b2
}

/// `f` may return `b` for a list holding `items`.
pub open spec fn combines_to<T, B, F: Fn(Vec<T>) -> B>(f: F, items: Seq<T>, b: B) -> bool {
    exists|v: Vec<T>| v@ == items && #[trigger] call_ensures(f, (v,), b)
}

/// The value `f` returns for a list holding `items`.
pub open spec fn apply_combine<T, B, F: Fn(Vec<T>) -> B>(f: F, items: Seq<T>) -> B {
    choose|b: B| combines_to(f, items, b)
}

/// A value returned by a call of a deterministic `f` is the value [`apply_combine`] names.
pub proof fn lemma_apply_combine<T, B, F: Fn(Vec<T>) -> B>(f: F, v: Vec<T>, b: B)
    requires
        combine_exact(f),
        call_ensures(f, (v,), b),
    ensures
        apply_combine(f, v@) == b,
{
    assert(combines_to(f, v@, b));
    let b2 = apply_combine(f, v@);
    let v2 = choose|v2: Vec<T>| v2@ == v@ && #[trigger] call_ensures(f, (v2,), b2);
    assert(call_ensures(f, (v2,), b2));
}

/// Runs of `p` from `s` until one misses, collecting the outputs after `acc`. A run that
/// produces a value without consuming input would be repeated without end: that outcome
/// is [`Outcome::Stuck`].
pub open spec fn spec_collect<Inp: Input, V, P: Parser<Inp, V>>(
    p: P,
    inp: Inp,
    rec: bool,
    s: State<V>,
    acc: Seq<P::Output>,
) -> (Outcome<Seq<P::Output>>, State<V>)
    decreases inp.spec_len() - s.pos,
{
    let (o, s2) = p.spec_parse(inp, rec, s);
    match o {
        Outcome::Done(Some(x)) => {
            if s.pos < s2.pos <= inp.spec_len() {
                spec_collect::<Inp, V, P>(p, inp, rec, s2, acc.push(x))
            } else {
                (Outcome::Stuck, s2)
            }
        },
        Outcome::Done(None) => (Outcome::Done(acc), s2),
        Outcome::Failed(e) => (Outcome::Failed(e), s2),
        Outcome::Stuck => (Outcome::Stuck, s2),
    }
}

/// [`spec_collect`] depends on the error handler's state only through whether it collects
/// errors (see [`Parser::lemma_parse_handler_blind`]).
pub proof fn lemma_collect_handler_blind<Inp: Input, V, P: Parser<Inp, V>>(
    p: P,
    inp: Inp,
    rec: bool,
    s: State<V>,
    acc: Seq<P::Output>,
    eh2: HandlerModel,
)
    requires
        p.wf(),
        s.valid(inp.spec_len()),
        eh2.is_real() == s.eh.is_real(),
    ensures
        ({
            let (o1, s1) = spec_collect::<Inp, V, P>(p, inp, rec, s, acc);
            let (o2, s2) = spec_collect::<Inp, V, P>(p, inp, rec, s.with_eh(eh2), acc);
            &&& !(o1 is Stuck) ==> s1.eh.is_real() == s.eh.is_real()
            &&& !(o1 is Stuck) && !(o2 is Stuck) ==> o1 == o2 && same_but_handler(s1, s2)
        }),
    decreases inp.spec_len() - s.pos,
{
    p.lemma_parse_bounds(inp, rec, s);
    p.lemma_parse_handler_blind(inp, rec, s, eh2);
    p.lemma_parse_handler_blind(inp, rec, s.with_eh(eh2), s.eh);
    let (o1, s1) = p.spec_parse(inp, rec, s);
    let (o1b, s1b) = p.spec_parse(inp, rec, s.with_eh(eh2));
    if let Outcome::Done(Some(x)) = o1 {
        if s.pos < s1.pos <= inp.spec_len() {
            let e = if o1b == o1 { s1b.eh } else { s1.eh };
            if o1b == o1 {
                assert(s1b == s1.with_eh(s1b.eh));
            }
            lemma_collect_handler_blind::<Inp, V, P>(p, inp, rec, s1, acc.push(x), e);
        }
    }
}

/// Bounds of [`spec_collect`].
pub proof fn lemma_collect_bounds<Inp: Input, V, P: Parser<Inp, V>>(
    p: P,
    inp: Inp,
    rec: bool,
    s: State<V>,
    acc: Seq<P::Output>,
)
    requires
        p.wf(),
        s.valid(inp.spec_len()),
    ensures
        ({
            let (o, s2) = spec_collect::<Inp, V, P>(p, inp, rec, s, acc);
            &&& s2.valid(inp.spec_len())
            &&& o is Done ==> s.pos <= s2.pos
            &&& s2.binds == s.binds
            &&& grows(s, s2)
        }),
    decreases inp.spec_len() - s.pos,
{
    p.lemma_parse_bounds(inp, rec, s);
    let (o, s2) = p.spec_parse(inp, rec, s);
    if let Outcome::Done(Some(x)) = o {
        if s.pos < s2.pos <= inp.spec_len() {
            lemma_collect_bounds::<Inp, V, P>(p, inp, rec, s2, acc.push(x));
            lemma_grows_trans(s, s2, spec_collect::<Inp, V, P>(p, inp, rec, s2, acc.push(x)).1);
        }
    }
}

/// Collect the outputs of repeated runs of `parser` after `results` (see
/// [`spec_collect`]).
fn collect<Inp: Input, V, P: Parser<Inp, V>, EH: ErrorHandler>(
    parser: &P,
    ctx: &mut ParserContext<V>,
    eh: &mut EH,
    input: &mut InputStream<Inp>,
    results: &mut Vec<P::Output>,
) -> (r: Result<(), MatcherRunError>)
    requires
        parser.wf(),
        old(input).pos <= old(input).input.spec_len(),
        memo_ok(old(ctx).memo_store@, old(input).input.spec_len()),
        old(input).input.spec_len() <= usize::MAX,
        !(spec_collect::<Inp, V, P>(
            *parser,
            old(input).input,
            old(ctx).is_in_error_recovery,
            exec_state(old(ctx), Seq::empty(), old(eh), old(input)),
            old(results)@,
        ).0 is Stuck),
    ensures
        final(input).input == old(input).input,
        final(ctx).is_in_error_recovery == old(ctx).is_in_error_recovery,
        ({
            let (o, s2) = spec_collect::<Inp, V, P>(
                *parser,
                old(input).input,
                old(ctx).is_in_error_recovery,
                exec_state(old(ctx), Seq::empty(), old(eh), old(input)),
                old(results)@,
            );
            &&& match r {
                Ok(()) => o == Outcome::Done(final(results)@),
                Err(e) => o == Outcome::<Seq<P::Output>>::Failed(e@),
            }
            &&& exec_state(final(ctx), Seq::empty(), final(eh), final(input)) == s2
        }),
{
    let ghost inp = input.input;
    let ghost rec = ctx.is_in_error_recovery;
    let ghost goal = spec_collect::<Inp, V, P>(
        *parser,
        inp,
        rec,
        exec_state(ctx, Seq::empty(), eh, input),
        results@,
    );
    loop
        invariant
            parser.wf(),
            inp == old(input).input,
            rec == old(ctx).is_in_error_recovery,
            goal == spec_collect::<Inp, V, P>(
                *parser,
                inp,
                rec,
                exec_state(old(ctx), Seq::empty(), old(eh), old(input)),
                old(results)@,
            ),
            input.input == inp,
            ctx.is_in_error_recovery == rec,
            input.pos <= inp.spec_len(),
            memo_ok(ctx.memo_store@, inp.spec_len()),
            inp.spec_len() <= usize::MAX,
            spec_collect::<Inp, V, P>(*parser, inp, rec, exec_state(ctx, Seq::empty(), eh, input), results@)
                == goal,
            !(goal.0 is Stuck),
        decreases inp.spec_len() - input.pos,
    {
        proof {
            parser.lemma_parse_bounds(inp, rec, exec_state(ctx, Seq::empty(), eh, input));
        }
        match parser.parse(ctx, eh, input) {
            Ok(Some(x)) => {
                results.push(x);
            },
            Ok(None) => {
                return Ok(());
            },
            Err(e) => {
                return Err(e);
            },
        }
    }
}

/// `parser*` with the outputs combined by `combine_fn`. The repetition has no progress
/// check: an inner match that consumes nothing is repeated without end.
pub struct MultipleParser<P, CF> {
    /// The repeated parser.
    pub parser: P,
    /// Combines the collected outputs.
    pub combine_fn: CF,
}

impl<P, CF> MultipleParser<P, CF> {
    /// Repeat `parser` and combine the outputs with `combine_fn`.
    pub fn new(parser: P, combine_fn: CF) -> (r: Self)
        ensures
            r.parser == parser,
            r.combine_fn == combine_fn,
    {
        MultipleParser { parser, combine_fn }
    }
}

impl<Inp: Input, V, O, P: Parser<Inp, V>, CF: Fn(Vec<P::Output>) -> O> Parser<Inp, V> for MultipleParser<
    P,
    CF,
> {
    type Output = O;

    open spec fn wf(&self) -> bool {
        self.parser.wf() && combine_exact(self.combine_fn)
    }

    open spec fn spec_label(&self) -> Option<Seq<char>> {
        None
    }

    open spec fn spec_parse(&self, inp: Inp, rec: bool, s: State<V>) -> (Outcome<Option<O>>, State<V>) {
        let (o, s2) = spec_collect::<Inp, V, P>(self.parser, inp, rec, s, Seq::empty());
        match o {
            Outcome::Done(items) => (Outcome::Done(Some(apply_combine(self.combine_fn, items))), s2),
            Outcome::Failed(e) => (Outcome::Failed(e), s2),
            Outcome::Stuck => (Outcome::Stuck, s2),
        }
    }

    proof fn lemma_parse_bounds(&self, inp: Inp, rec: bool, s: State<V>) {
        lemma_collect_bounds::<Inp, V, P>(self.parser, inp, rec, s, Seq::empty());
    }

    proof fn lemma_parse_handler_blind(&self, inp: Inp, rec: bool, s: State<V>, eh2: HandlerModel) {
        lemma_collect_handler_blind::<Inp, V, P>(self.parser, inp, rec, s, Seq::empty(), eh2);
    }

    fn maybe_label(&self) -> (l: Option<String>) {
        None
    }

    fn parse<EH: ErrorHandler>(
        &self,
        ctx: &mut ParserContext<V>,
        eh: &mut EH,
        input: &mut InputStream<Inp>,
    ) -> (r: Result<Option<O>, MatcherRunError>) {
        let mut results: Vec<P::Output> = Vec::new();
        match collect(&self.parser, ctx, eh, input, &mut results) {
            Ok(()) => {
                let out = (self.combine_fn)(results);
                proof {
                    lemma_apply_combine(self.combine_fn, results, out);
                }
                Ok(Some(out))
            },
            Err(e) => Err(e),
        }
    }
}

/// `parser+` with the outputs combined by `combine_fn`: the first run must produce a value.
pub struct OneOrMoreParser<P, CF> {
    /// The repeated parser.
    pub parser: P,
    /// Combines the collected outputs.
    pub combine_fn: CF,
}

impl<P, CF> OneOrMoreParser<P, CF> {
    /// Repeat `parser` at least once and combine the outputs with `combine_fn`.
    pub fn new(parser: P, combine_fn: CF) -> (r: Self)
        ensures
            r.parser == parser,
            r.combine_fn == combine_fn,
    {
        OneOrMoreParser { parser, combine_fn }
    }
}

impl<Inp: Input, V, O, P: Parser<Inp, V>, CF: Fn(Vec<P::Output>) -> O> Parser<Inp, V> for OneOrMoreParser<
    P,
    CF,
> {
    type Output = O;

    open spec fn wf(&self) -> bool {
        self.parser.wf() && combine_exact(self.combine_fn)
    }

    open spec fn spec_label(&self) -> Option<Seq<char>> {
        None
    }

    open spec fn spec_parse(&self, inp: Inp, rec: bool, s: State<V>) -> (Outcome<Option<O>>, State<V>) {
        let (o1, s1) = self.parser.spec_parse(inp, rec, s);
        match o1 {
            Outcome::Done(Some(x)) => {
                let (o, s2) = spec_collect::<Inp, V, P>(self.parser, inp, rec, s1, seq![x]);
                match o {
                    Outcome::Done(items) => (
                        Outcome::Done(Some(apply_combine(self.combine_fn, items))),
                        s2,
                    ),
                    Outcome::Failed(e) => (Outcome::Failed(e), s2),
                    Outcome::Stuck => (Outcome::Stuck, s2),
                }
            },
            Outcome::Done(None) => (Outcome::Done(None), s1),
            Outcome::Failed(e) => (Outcome::Failed(e), s1),
            Outcome::Stuck => (Outcome::Stuck, s1),
        }
    }

    proof fn lemma_parse_bounds(&self, inp: Inp, rec: bool, s: State<V>) {
        self.parser.lemma_parse_bounds(inp, rec, s);
        let (o1, s1) = self.parser.spec_parse(inp, rec, s);
        if let Outcome::Done(Some(x)) = o1 {
            lemma_collect_bounds::<Inp, V, P>(self.parser, inp, rec, s1, seq![x]);
            lemma_grows_trans(s, s1, spec_collect::<Inp, V, P>(self.parser, inp, rec, s1, seq![x]).1);
        }
    }

    proof fn lemma_parse_handler_blind(&self, inp: Inp, rec: bool, s: State<V>, eh2: HandlerModel) {
        self.parser.lemma_parse_bounds(inp, rec, s);
        self.parser.lemma_parse_handler_blind(inp, rec, s, eh2);
        self.parser.lemma_parse_handler_blind(inp, rec, s.with_eh(eh2), s.eh);
        let (o1, s1) = self.parser.spec_parse(inp, rec, s);
        let (o1b, s1b) = self.parser.spec_parse(inp, rec, s.with_eh(eh2));
        if let Outcome::Done(Some(x)) = o1 {
            let e = if o1b == o1 { s1b.eh } else { s1.eh };
            if o1b == o1 {
                assert(s1b == s1.with_eh(s1b.eh));
            }
            lemma_collect_handler_blind::<Inp, V, P>(self.parser, inp, rec, s1, seq![x], e);
        }
    }

    fn maybe_label(&self) -> (l: Option<String>) {
        None
    }

    fn parse<EH: ErrorHandler>(
        &self,
        ctx: &mut ParserContext<V>,
        eh: &mut EH,
        input: &mut InputStream<Inp>,
    ) -> (r: Result<Option<O>, MatcherRunError>) {
        proof {
            self.parser.lemma_parse_bounds(
                input.input,
                ctx.is_in_error_recovery,
                exec_state(ctx, Seq::empty(), eh, input),
            );
        }
        let first = match self.parser.parse(ctx, eh, input) {
            Ok(Some(x)) => x,
            Ok(None) => return Ok(None),
            Err(e) => return Err(e),
        };
        let mut results: Vec<P::Output> = Vec::new();
        results.push(first);
        proof {
            assert(results@ =~= seq![first]);
        }
        match collect(&self.parser, ctx, eh, input, &mut results) {
            Ok(()) => {
                let out = (self.combine_fn)(results);
                proof {
                    lemma_apply_combine(self.combine_fn, results, out);
                }
                Ok(Some(out))
            },
            Err(e) => Err(e),
        }
    }
}

/// Repetition keeps the outputs in the order of the runs: the list it ends with starts with
/// the list it was given, and where the run from `s` produces `x` and moves forward, `x`
/// comes right after that list; where the run from `s` misses, the list is handed back
/// unchanged at the state that run left.
pub proof fn lemma_collect_in_order<Inp: Input, V, P: Parser<Inp, V>>(
    p: P,
    inp: Inp,
    rec: bool,
    s: State<V>,
    acc: Seq<P::Output>,
)
    ensures
        match spec_collect::<Inp, V, P>(p, inp, rec, s, acc).0 {
            Outcome::Done(items) => items.len() >= acc.len() && items.take(acc.len() as int) == acc,
            _ => true,
        },
        match p.spec_parse(inp, rec, s) {
            (Outcome::Done(Some(x)), s1) => s.pos < s1.pos <= inp.spec_len() ==> match spec_collect::<
                Inp,
                V,
                P,
            >(p, inp, rec, s, acc).0 {
                Outcome::Done(items) => items.len() > acc.len() && items[acc.len() as int] == x,
                _ => true,
            },
            (Outcome::Done(None), s1) => spec_collect::<Inp, V, P>(p, inp, rec, s, acc) == (
                Outcome::Done(acc),
                s1,
            ),
            _ => true,
        },
    decreases inp.spec_len() - s.pos,
{
    let (o1, s1) = p.spec_parse(inp, rec, s);
    if let Outcome::Done(Some(x)) = o1 {
        if s.pos < s1.pos <= inp.spec_len() {
            lemma_collect_in_order::<Inp, V, P>(p, inp, rec, s1, acc.push(x));
            if let Outcome::Done(items) = spec_collect::<Inp, V, P>(p, inp, rec, s1, acc.push(x)).0 {
                assert(items.take(acc.len() as int + 1) == acc.push(x));
                assert(items.take(acc.len() as int) =~= acc.push(x).take(acc.len() as int));
                assert(acc.push(x).take(acc.len() as int) =~= acc);
                assert(items[acc.len() as int] == items.take(acc.len() as int + 1)[acc.len() as int]);
            }
        }
    } else {
        if let Outcome::Done(items) = spec_collect::<Inp, V, P>(p, inp, rec, s, acc).0 {
            assert(items.take(acc.len() as int) =~= acc);
        }
    }
}

/// `parser*` hands its combine function the outputs in the order of the runs: where the
/// first run produces `x` and moves forward, the combined output is the combine function
/// applied to a list whose first element is `x`; where the first run misses, it is the
/// combine function applied to the empty list, at the state the run left.
pub proof fn lemma_multiple_parser_order<Inp: Input, V, P: Parser<Inp, V>, O, CF: Fn(Vec<P::Output>) -> O>(
    m: MultipleParser<P, CF>,
    inp: Inp,
    rec: bool,
    s: State<V>,
)
    ensures
        match m.parser.spec_parse(inp, rec, s) {
            (Outcome::Done(Some(x)), s1) => s.pos < s1.pos <= inp.spec_len() ==> match m.spec_parse(
                inp,
                rec,
                s,
            ).0 {
                Outcome::Done(Some(out)) => exists|items: Seq<P::Output>|
                    items.len() >= 1 && items[0] == x && out == apply_combine(m.combine_fn, items),
                _ => true,
            },
            (Outcome::Done(None), s1) => m.spec_parse(inp, rec, s) == (
                Outcome::Done(Some(apply_combine(m.combine_fn, Seq::<P::Output>::empty()))),
                s1,
            ),
            _ => true,
        },
{
    lemma_collect_in_order::<Inp, V, P>(m.parser, inp, rec, s, Seq::empty());
    let (o1, s1) = m.parser.spec_parse(inp, rec, s);
    if let Outcome::Done(items) = spec_collect::<Inp, V, P>(m.parser, inp, rec, s, Seq::empty()).0 {
        if let Outcome::Done(Some(x)) = o1 {
            if s.pos < s1.pos <= inp.spec_len() {
                assert(items.len() >= 1 && items[0] == x);
            }
        }
    }
}

/// `parser+` hands its combine function the outputs in the order of the runs: the list
/// starts with the first run's output, followed, where the first run moved forward and the
/// second run produces `y`, by `y`; where the first run misses, so does `parser+`, at the
/// state that run left.
pub proof fn lemma_one_or_more_parser_order<Inp: Input, V, P: Parser<Inp, V>, O, CF: Fn(Vec<P::Output>) -> O>(
    m: OneOrMoreParser<P, CF>,
    inp: Inp,
    rec: bool,
    s: State<V>,
)
    ensures
        match m.parser.spec_parse(inp, rec, s) {
            (Outcome::Done(Some(x)), s1) => match m.spec_parse(inp, rec, s).0 {
                Outcome::Done(Some(out)) => exists|items: Seq<P::Output>|
                    items.len() >= 1 && items[0] == x && out == apply_combine(m.combine_fn, items)
                        && match m.parser.spec_parse(inp, rec, s1) {
                        (Outcome::Done(Some(y)), s3) => s1.pos < s3.pos <= inp.spec_len() ==> items.len()
                            >= 2 && items[1] == y,
                        _ => true,
                    },
                _ => true,
            },
            (Outcome::Done(None), s1) => m.spec_parse(inp, rec, s) == (
                Outcome::<Option<O>>::Done(None),
                s1,
            ),
            _ => true,
        },
{
    let (o1, s1) = m.parser.spec_parse(inp, rec, s);
    if let Outcome::Done(Some(x)) = o1 {
        lemma_collect_in_order::<Inp, V, P>(m.parser, inp, rec, s1, seq![x]);
        if let Outcome::Done(items) = spec_collect::<Inp, V, P>(m.parser, inp, rec, s1, seq![x]).0 {
            assert(items.take(1)[0] == items[0]);
            assert(items[0] == x);
        }
    }
}

} // verus!
