//! Parsers: grammar fragments that produce an output value.
//!
//! A parser's behaviour is given by [`Parser::spec_parse`], a function from the input, the
//! mode (error recovery or not) and a [`State`] to an [`Outcome`] holding `Some(output)` on
//! a match or `None` on a miss, and the state after the run. Parsers do not touch the
//! values bound by an enclosing capture.
use vstd::prelude::*;
use crate::context::{memo_ok, Outcome, ParserContext, State, exec_state, result_matches, same_but_handler};
use crate::error_handler::HandlerModel;
use crate::error::MatcherRunError;
use crate::error_handler::{ErrorHandler, opt_label};
use crate::input::{Input, InputStream};
use crate::matcher::grows;

pub mod capture;
pub mod memoized;
pub mod multiple;
pub mod one_of;
pub mod recover_error;
pub mod token;

verus! {

/// A grammar fragment over input `Inp` that produces a value; `V` is the type of the values
/// that captures bind and that memoized parsers store.
pub trait Parser<Inp: Input, V>: Sized {
    /// The produced value.
    type Output;

    /// Well-formedness of the parser (closures inside are total and deterministic).
    spec fn wf(&self) -> bool;

    /// Label reported to the error handler when a run of this parser fails.
    spec fn spec_label(&self) -> Option<Seq<char>>;

    /// One run of this parser in mode `rec` from state `s`.
    spec fn spec_parse(&self, inp: Inp, rec: bool, s: State<V>) -> (Outcome<Option<Self::Output>>, State<V>);

    /// A run stays within the input, a match never moves backwards, and the bound values
    /// are left alone.
    proof fn lemma_parse_bounds(&self, inp: Inp, rec: bool, s: State<V>)
        requires
            self.wf(),
            s.valid(inp.spec_len()),
        ensures
            ({
                let (o, s2) = self.spec_parse(inp, rec, s);
                &&& s2.valid(inp.spec_len())
                &&& o matches Outcome::Done(Some(_)) ==> s.pos <= s2.pos
                &&& o == Outcome::<Option<Self::Output>>::Done(None) ==> s2.pos == s.pos
                &&& s2.binds == s.binds
                &&& grows(s, s2)
            }),
    ;

    /// A run depends on the error handler's state only through whether it collects errors:
    /// from two handler states that agree on that, two runs that do not get stuck have the
    /// same outcome and leave the same state apart from the handler, and a run keeps whether
    /// the handler collects errors.
    proof fn lemma_parse_handler_blind(&self, inp: Inp, rec: bool, s: State<V>, eh2: HandlerModel)
        requires
            self.wf(),
            s.valid(inp.spec_len()),
            eh2.is_real() == s.eh.is_real(),
        ensures
            ({
                let (o1, s1) = self.spec_parse(inp, rec, s);
                let (o2, s2) = self.spec_parse(inp, rec, s.with_eh(eh2));
                &&& !(o1 is Stuck) ==> s1.eh.is_real() == s.eh.is_real()
                &&& !(o1 is Stuck) && !(o2 is Stuck) ==> o1 == o2 && same_but_handler(s1, s2)
            }),
    ;

    /// Label reported to the error handler when a run of this parser fails.
    fn maybe_label(&self) -> (l: Option<String>)
        ensures
            opt_label(l) == self.spec_label(),
    ;

    /// Run this parser.
    fn parse<EH: ErrorHandler>(
        &self,
        ctx: &mut ParserContext<V>,
        eh: &mut EH,
        input: &mut InputStream<Inp>,
    ) -> (r: Result<Option<Self::Output>, MatcherRunError>)
        requires
            self.wf(),
            old(input).pos <= old(input).input.spec_len(),
            memo_ok(old(ctx).memo_store@, old(input).input.spec_len()),
            old(input).input.spec_len() <= usize::MAX,
            !(self.spec_parse(
                old(input).input,
                old(ctx).is_in_error_recovery,
                exec_state(old(ctx), Seq::empty(), old(eh), old(input)),
            ).0 is Stuck),
        ensures
            final(input).input == old(input).input,
            final(ctx).is_in_error_recovery == old(ctx).is_in_error_recovery,
            ({
                let (o, s2) = self.spec_parse(
                    old(input).input,
                    old(ctx).is_in_error_recovery,
                    exec_state(old(ctx), Seq::empty(), old(eh), old(input)),
                );
                &&& result_matches(r, o)
                &&& exec_state(final(ctx), Seq::empty(), final(eh), final(input)) == s2
            }),
    ;
}

/// Cloning `t` gives back `t` itself.
pub open spec fn clone_exact<T: Clone>(t: T) -> bool {
    forall|o: T| #[trigger] call_ensures(T::clone, (&t,), o) ==> o == t
}

/// `f` accepts every argument and returns one value for each.
pub open spec fn fn_exact<A, B, F: Fn(A) -> B>(f: F) -> bool {
    &&& forall|a: A| call_requires(f, (a,))
    &&& forall|a: A, b1: B, b2: B|
        call_ensures(f, (a,), b1) && call_ensures(f, (a,), b2) ==> b1 == b2
}

/// The value `f` returns for `a`.
pub open spec fn apply<A, B, F: Fn(A) -> B>(f: F, a: A) -> B {
    choose|b: B| call_ensures(f, (a,), b)
}

/// A value returned by a call of a deterministic `f` is the value [`apply`] names.
pub proof fn lemma_apply<A, B, F: Fn(A) -> B>(f: F, a: A, b: B)
    requires
        fn_exact(f),
        call_ensures(f, (a,), b),
    ensures
        apply(f, a) == b,
{
}

/// Combinators available on every parser.
pub trait ParserCombinator: Sized {
    /// Recover from hard failures of `self` with `recover_matcher`, producing
    /// `recover_output` (see [`recover_error::ErrorRecoverer`]).
    fn recover_with<M, O>(self, recover_matcher: M, recover_output: O) -> (r: recover_error::ErrorRecoverer<
        Self,
        M,
        O,
    >)
        ensures
            r.happy == self,
            r.recover_matcher == recover_matcher,
            r.recover_output == recover_output,
    {
        recover_error::ErrorRecoverer::new(self, recover_matcher, recover_output)
    }
}

impl<P> ParserCombinator for P {}

/// A type that can be turned into a parser.
pub trait ToParser {
    /// The parser it becomes.
    type ParserType;

    /// The parser.
    fn to_parser(&self) -> Self::ParserType;
}

} // verus!
