//! Parse context and the state model that the matchers' and parsers' contracts speak of.
use vstd::prelude::*;
use crate::error::{ParserError, ParserErrorView, RunErrorView, MatcherRunError};
use crate::error_handler::{ErrorHandler, HandlerModel};
use crate::input::{Input, InputStream};
use crate::memo_store::{MemoEntry, MemoStore, MemoParserId};

verus! {

/// Where a bound value goes in a capture result.
#[derive(Clone, Copy, PartialEq, Eq, Structural)]
pub enum Slot {
    /// A value that must be bound exactly once.
    Single(usize),
    /// A list of values.
    Multiple(usize),
    /// A value that may be bound at most once.
    Optional(usize),
}

/// A value a capture binds: the output of a parser, or the span a matcher consumed.
pub enum CaptureValue<V> {
    /// A parser's output.
    Value(V),
    /// A consumed span: start and end position.
    Span(usize, usize),
}

/// A value bound by a matcher, with the slot it goes to.
pub struct Bound<V> {
    /// The bound value.
    pub value: CaptureValue<V>,
    /// Its slot in the capture result.
    pub slot: Slot,
}

/// Per-parse state shared by all parsers and matchers.
pub struct ParserContext<V> {
    /// Diagnostics recorded so far (matchers truncate it when a branch fails).
    pub error_stack: Vec<ParserError>,
    /// Memo tables of [`crate::parser::memoized::Memoized`] parsers.
    pub memo_store: MemoStore<V>,
    /// Start position of the innermost capture.
    pub match_start: usize,
    /// Whether this pass parses in error-recovery mode.
    pub is_in_error_recovery: bool,
}

impl<V> ParserContext<V> {
    /// A fresh context for a first (non-recovery) pass.
    pub fn new() -> (c: Self)
        ensures
            c.error_stack@.len() == 0,
            c.memo_store@ == Map::<(MemoParserId, usize), MemoEntry<V>>::empty(),
            c.match_start == 0,
            !c.is_in_error_recovery,
    {
        ParserContext {
            error_stack: Vec::new(),
            memo_store: MemoStore::new(),
            match_start: 0,
            is_in_error_recovery: false,
        }
    }

    /// Take the recorded diagnostics.
    pub fn get_errors(self) -> (e: Vec<ParserError>)
        ensures
            e == self.error_stack,
    {
        self.error_stack
    }

    /// Prepare a rerun of the whole parse in recovery mode: drop the memo tables and the
    /// diagnostics of the first pass, and reset the capture start.
    pub fn reset_for_global_recovery_reparse(&mut self)
        ensures
            final(self).error_stack@.len() == 0,
            final(self).memo_store@ == Map::<(MemoParserId, usize), MemoEntry<V>>::empty(),
            final(self).match_start == 0,
            final(self).is_in_error_recovery == old(self).is_in_error_recovery,
    {
        self.error_stack = Vec::new();
        self.memo_store = MemoStore::new();
        self.match_start = 0;
    }

    /// Record a diagnostic.
    pub fn push_stack_error(&mut self, e: ParserError)
        ensures
            final(self).error_stack@ == old(self).error_stack@.push(e),
            final(self).memo_store == old(self).memo_store,
            final(self).match_start == old(self).match_start,
            final(self).is_in_error_recovery == old(self).is_in_error_recovery,
    {
        self.error_stack.push(e);
    }
}

/// The views of a list of diagnostics.
pub open spec fn error_views(v: Seq<ParserError>) -> Seq<ParserErrorView> {
    v.map_values(|e: ParserError| e@)
}

/// Model of the state a matcher or parser reads and changes.
pub struct State<V> {
    /// Input position.
    pub pos: int,
    /// Values bound so far by the running capture.
    pub binds: Seq<Bound<V>>,
    /// Diagnostics recorded so far.
    pub errors: Seq<ParserErrorView>,
    /// Memo cells.
    pub memo: Map<(MemoParserId, usize), MemoEntry<V>>,
    /// Start position of the innermost capture.
    pub match_start: usize,
    /// Error handler state.
    pub eh: HandlerModel,
}

/// Every memoized success at a position ends between that position and `len`.
pub open spec fn memo_ok<V>(memo: Map<(MemoParserId, usize), MemoEntry<V>>, len: nat) -> bool {
    forall|k: (MemoParserId, usize)|
        #[trigger] memo.contains_key(k) ==> match memo[k] {
            Some((_, end)) => k.1 <= end <= len,
            None => true,
        }
}

impl<V> State<V> {
    /// The position lies within an input of length `len` (a length that fits a `usize`),
    /// and so do the memoized ends.
    pub open spec fn valid(self, len: nat) -> bool {
        0 <= self.pos <= len && len <= usize::MAX && memo_ok(self.memo, len)
    }

    /// The same state with the error handler state replaced.
    pub open spec fn with_eh(self, eh: HandlerModel) -> Self {
        State { eh, ..self }
    }

    /// The same state with the bound values replaced.
    pub open spec fn with_binds(self, binds: Seq<Bound<V>>) -> Self {
        State { binds, ..self }
    }

    /// The same state at another position.
    pub open spec fn at(self, pos: int) -> Self {
        State { pos, ..self }
    }
}

/// `t` is `s` with another error handler state.
pub open spec fn same_but_handler<V>(s: State<V>, t: State<V>) -> bool {
    t.with_eh(s.eh) == s
}

/// The result of a run: a value, an abort with an error, or a point where the library panics.
pub enum Outcome<T> {
    /// Normal result.
    Done(T),
    /// Aborted with an error.
    Failed(RunErrorView),
    /// The run reaches a panic (a precondition of the library is violated).
    Stuck,
}

impl<T> Outcome<T> {
    /// The same abort or panic at another result type (a normal result is mapped to
    /// [`Outcome::Stuck`]).
    pub open spec fn map_failure<U>(self) -> Outcome<U> {
        match self {
            Outcome::Failed(e) => Outcome::Failed(e),
            _ => Outcome::Stuck,
        }
    }
}

/// An exec result agrees with an outcome.
pub open spec fn result_matches<T>(r: Result<T, MatcherRunError>, o: Outcome<T>) -> bool {
    match r {
        Ok(v) => o == Outcome::Done(v),
        Err(e) => o == Outcome::<T>::Failed(e@),
    }
}

/// The model state of exec values.
pub open spec fn exec_state<V, Inp, EH: ErrorHandler>(
    ctx: &ParserContext<V>,
    binds: Seq<Bound<V>>,
    eh: &EH,
    input: &InputStream<Inp>,
) -> State<V> {
    State {
        pos: input.pos as int,
        binds,
        errors: error_views(ctx.error_stack@),
        memo: ctx.memo_store@,
        match_start: ctx.match_start,
        eh: eh.model(),
    }
}

} // verus!
