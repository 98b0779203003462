//! Memoized parsers: the result at a position is computed once per parse and then reused.
use std::rc::Rc;
use vstd::prelude::*;
use crate::error_handler::HandlerModel;
use crate::context::{Outcome, ParserContext, State, exec_state, memo_ok};
use crate::error::MatcherRunError;
use crate::error_handler::ErrorHandler;
use crate::input::{Input, InputStream};
use crate::memo_store::{MemoEntry, MemoKeySource, MemoParserId, rc_clone};
use crate::parser::Parser;

verus! {

/// Caches the result of `inner` per start position in the context's memo store, under
/// the key `(id, position)`: a miss as `None`, a success as the shared output and the end
/// position. A cached result is returned without running `inner` again.
pub struct Memoized<P> {
    /// The memoized parser.
    pub inner: P,
    /// The key of this parser's memo table, fresh from a [`MemoKeySource`].
    pub id: MemoParserId,
}

impl<P> Memoized<P> {
    /// Memoize `inner` under a fresh key from `keys`: two parsers memoized from one source
    /// never share a key.
    pub fn new(inner: P, keys: &mut MemoKeySource) -> (r: Self)
        requires
            old(keys)@ < usize::MAX,
        ensures
            r.inner == inner,
            r.id == old(keys)@,
            final(keys)@ == old(keys)@ + 1,
    {
        let id = keys.fresh();
        Memoized { inner, id }
    }
}

/// `r` shares the value `x`.
pub open spec fn shares<V>(r: Rc<V>, x: V) -> bool {
    *r == x
}

/// The shared value holding `x`.
pub open spec fn rc_of<V>(x: V) -> Rc<V> {
    choose|r: Rc<V>| #[trigger] shares(r, x)
}

impl<Inp: Input, V, P: Parser<Inp, V, Output = V>> Parser<Inp, V> for Memoized<P> {
    type Output = Rc<V>;

    open spec fn wf(&self) -> bool {
        self.inner.wf()
    }

    open spec fn spec_label(&self) -> Option<Seq<char>> {
        None
    }

    open spec fn spec_parse(&self, inp: Inp, rec: bool, s: State<V>) -> (Outcome<Option<Rc<V>>>, State<V>) {
        let key = (self.id, s.pos as usize);
        if s.memo.contains_key(key) {
            match s.memo[key] {
                None => (Outcome::Done(None), s),
                Some((rc, end)) => (Outcome::Done(Some(rc)), s.at(end as int)),
            }
        } else {
            let (o, s2) = self.inner.spec_parse(inp, rec, s);
            match o {
                Outcome::Done(None) => (
                    Outcome::Done(None),
                    State { memo: s2.memo.insert(key, None), ..s2 },
                ),
                Outcome::Done(Some(x)) => (
                    Outcome::Done(Some(rc_of(x))),
                    State { memo: s2.memo.insert(key, Some((rc_of(x), s2.pos as usize))), ..s2 },
                ),
                _ => (o.map_failure(), s2),
            }
        }
    }

    proof fn lemma_parse_bounds(&self, inp: Inp, rec: bool, s: State<V>) {
        let key = (self.id, s.pos as usize);
        if s.memo.contains_key(key) {
            crate::matcher::lemma_grows_same(s, self.spec_parse(inp, rec, s).1);
        } else {
            self.inner.lemma_parse_bounds(inp, rec, s);
        }
    }

    proof fn lemma_parse_handler_blind(&self, inp: Inp, rec: bool, s: State<V>, eh2: HandlerModel) {
        let key = (self.id, s.pos as usize);
        if !s.memo.contains_key(key) {
            self.inner.lemma_parse_handler_blind(inp, rec, s, eh2);
        }
    }

    fn maybe_label(&self) -> (l: Option<String>) {
        None
    }

    fn parse<EH: ErrorHandler>(
        &self,
        ctx: &mut ParserContext<V>,
        eh: &mut EH,
        input: &mut InputStream<Inp>,
    ) -> (r: Result<Option<Rc<V>>, MatcherRunError>) {
        let pos = input.get_pos();
        match ctx.memo_store.get_entry(self.id, pos) {
            Some(None) => {
                return Ok(None);
            },
            Some(Some((rc, end))) => {
                input.set_pos(end);
                return Ok(Some(rc));
            },
            None => {},
        }
        match self.inner.parse(ctx, eh, input) {
            Ok(None) => {
                ctx.memo_store.insert_entry(self.id, pos, None);
                Ok(None)
            },
            Ok(Some(output)) => {
                let rc = Rc::new(output);
                proof {
                    assert(shares(rc, output));
                }
                let end = input.get_pos();
                ctx.memo_store.insert_entry(self.id, pos, Some((rc_clone(&rc), end)));
                Ok(Some(rc))
            },
            Err(e) => Err(e),
        }
    }
}

/// A memoized parser runs its inner parser at most once per position: running it again
/// at the same position, after a run that produced a result, gives back that result and
/// that end state without running the inner parser.
pub proof fn lemma_memo_replay<Inp: Input, V, P: Parser<Inp, V, Output = V>>(
    m: Memoized<P>,
    inp: Inp,
    rec: bool,
    s: State<V>,
)
    requires
        m.inner.wf(),
        s.valid(inp.spec_len()),
    ensures
        ({
            let (o, s2) = m.spec_parse(inp, rec, s);
            o is Done ==> m.spec_parse(inp, rec, s2.at(s.pos)) == (o, s2)
        }),
{
    let key = (m.id, s.pos as usize);
    if !s.memo.contains_key(key) {
        m.inner.lemma_parse_bounds(inp, rec, s);
    }
}

/// The first run of a memoized parser at a position runs the inner parser: its output is
/// shared unchanged, and the memo cell at `(id, position)` then holds the miss, or the
/// output with the end position; an abort is the inner parser's and stores nothing. Where
/// the cell is already set, the inner parser does not run: a stored miss is a miss without
/// moving, a stored output is produced again at its stored end.
pub proof fn lemma_memo_first_run<Inp: Input, V, P: Parser<Inp, V, Output = V>>(
    m: Memoized<P>,
    inp: Inp,
    rec: bool,
    s: State<V>,
)
    ensures
        ({
            let key = (m.id, s.pos as usize);
            let (o, s2) = m.spec_parse(inp, rec, s);
            let (oi, si) = m.inner.spec_parse(inp, rec, s);
            &&& !s.memo.contains_key(key) && oi == Outcome::<Option<V>>::Done(None) ==> o == Outcome::<
                Option<Rc<V>>,
            >::Done(None) && s2 == State { memo: si.memo.insert(key, None), ..si }
            &&& !s.memo.contains_key(key) ==> match oi {
                Outcome::Done(Some(x)) => match o {
                    Outcome::Done(Some(r)) => *r == x && s2.memo[key] == Some((r, si.pos as usize))
                        && s2.pos == si.pos,
                    _ => false,
                },
                _ => true,
            }
            &&& !s.memo.contains_key(key) && oi is Failed ==> o == oi.map_failure::<Option<Rc<V>>>() && s2
                == si
            &&& s.memo.contains_key(key) && s.memo[key] is None ==> (o, s2) == (
                Outcome::<Option<Rc<V>>>::Done(None),
                s,
            )
            &&& s.memo.contains_key(key) ==> match s.memo[key] {
                Some((r, end)) => (o, s2) == (Outcome::Done(Some(r)), s.at(end as int)),
                None => true,
            }
        }),
{
    let key = (m.id, s.pos as usize);
    let (oi, si) = m.inner.spec_parse(inp, rec, s);
    if !s.memo.contains_key(key) {
        if let Outcome::Done(Some(x)) = oi {
            assert(shares(rc_of(x), x)) by {
                assert(shares(Rc::new(x), x));
            }
        }
    }
}

} // verus!
