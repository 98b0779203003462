//! Single-token parsers.
use vstd::prelude::*;
use crate::error_handler::HandlerModel;
use crate::context::{Outcome, ParserContext, State};
use crate::error::MatcherRunError;
use crate::error_handler::ErrorHandler;
use crate::input::{Input, InputStream};
use crate::matcher::lemma_grows_same;
use crate::parser::{Parser, apply, fn_exact, lemma_apply};

verus! {

/// The token read at `pos`, with the position after it, where `accept` holds of it.
pub open spec fn spec_read_if<Inp: Input>(
    inp: Inp,
    pos: int,
    accept: spec_fn(Inp::Token) -> bool,
) -> Option<(Inp::Token, int)> {
    match inp.spec_read(pos) {
        Some((t, next)) => if accept(t) {
            Some((t, next))
        } else {
            None
        },
        None => None,
    }
}

/// Parses one token equal to `token`, producing it; consumes nothing on a miss.
pub struct SingleTokenParser<T> {
    /// The expected token.
    pub token: T,
}

impl<T> SingleTokenParser<T> {
    /// Expect `token`.
    pub fn new(token: T) -> (r: Self)
        ensures
            r.token == token,
    {
        SingleTokenParser { token }
    }
}

impl<Inp: Input<Token = char>, V> Parser<Inp, V> for SingleTokenParser<char> {
    type Output = char;

    open spec fn wf(&self) -> bool {
        true
    }

    open spec fn spec_label(&self) -> Option<Seq<char>> {
        None
    }

    open spec fn spec_parse(&self, inp: Inp, rec: bool, s: State<V>) -> (Outcome<Option<char>>, State<V>) {
        match spec_read_if(inp, s.pos, |t: char| t == self.token) {
            Some((t, next)) => (Outcome::Done(Some(t)), s.at(next)),
            None => (Outcome::Done(None), s),
        }
    }

    proof fn lemma_parse_bounds(&self, inp: Inp, rec: bool, s: State<V>) {
        inp.lemma_read_bounds(s.pos, Seq::empty());
        lemma_grows_same(s, self.spec_parse(inp, rec, s).1);
    }

    proof fn lemma_parse_handler_blind(&self, inp: Inp, rec: bool, s: State<V>, eh2: HandlerModel) {
    }

    fn maybe_label(&self) -> (l: Option<String>) {
        None
    }

    fn parse<EH: ErrorHandler>(
        &self,
        ctx: &mut ParserContext<V>,
        eh: &mut EH,
        input: &mut InputStream<Inp>,
    ) -> (r: Result<Option<char>, MatcherRunError>) {
        let before = input.get_pos();
        match input.next() {
            Some(t) => {
                if t == self.token {
                    return Ok(Some(t));
                }
            },
            None => {},
        }
        input.set_pos(before);
        Ok(None)
    }
}

impl<'a, V> Parser<&'a [u8], V> for SingleTokenParser<u8> {
    type Output = u8;

    open spec fn wf(&self) -> bool {
        true
    }

    open spec fn spec_label(&self) -> Option<Seq<char>> {
        None
    }

    open spec fn spec_parse(&self, inp: &'a [u8], rec: bool, s: State<V>) -> (Outcome<Option<u8>>, State<V>) {
        match spec_read_if(inp, s.pos, |t: &'a u8| *t == self.token) {
            Some((t, next)) => (Outcome::Done(Some(*t)), s.at(next)),
            None => (Outcome::Done(None), s),
        }
    }

    proof fn lemma_parse_bounds(&self, inp: &'a [u8], rec: bool, s: State<V>) {
        lemma_grows_same(s, self.spec_parse(inp, rec, s).1);
    }

    proof fn lemma_parse_handler_blind(&self, inp: &'a [u8], rec: bool, s: State<V>, eh2: HandlerModel) {
    }

    fn maybe_label(&self) -> (l: Option<String>) {
        None
    }

    fn parse<EH: ErrorHandler>(
        &self,
        ctx: &mut ParserContext<V>,
        eh: &mut EH,
        input: &mut InputStream<&'a [u8]>,
    ) -> (r: Result<Option<u8>, MatcherRunError>) {
        let before = input.get_pos();
        match input.next() {
            Some(t) => {
                if *t == self.token {
                    return Ok(Some(*t));
                }
            },
            None => {},
        }
        input.set_pos(before);
        Ok(None)
    }
}

/// Parses one token inside the inclusive range `start..=end`, producing it; consumes
/// nothing on a miss.
pub struct RangeParser<T> {
    /// Smallest accepted token.
    pub start: T,
    /// Largest accepted token.
    pub end: T,
}

impl<T> RangeParser<T> {
    /// Accept tokens in `start..=end`.
    pub fn new(start: T, end: T) -> (r: Self)
        ensures
            r.start == start,
            r.end == end,
    {
        RangeParser { start, end }
    }
}

impl<Inp: Input<Token = char>, V> Parser<Inp, V> for RangeParser<char> {
    type Output = char;

    open spec fn wf(&self) -> bool {
        true
    }

    open spec fn spec_label(&self) -> Option<Seq<char>> {
        None
    }

    open spec fn spec_parse(&self, inp: Inp, rec: bool, s: State<V>) -> (Outcome<Option<char>>, State<V>) {
        match spec_read_if(inp, s.pos, |t: char| self.start <= t <= self.end) {
            Some((t, next)) => (Outcome::Done(Some(t)), s.at(next)),
            None => (Outcome::Done(None), s),
        }
    }

    proof fn lemma_parse_bounds(&self, inp: Inp, rec: bool, s: State<V>) {
        inp.lemma_read_bounds(s.pos, Seq::empty());
        lemma_grows_same(s, self.spec_parse(inp, rec, s).1);
    }

    proof fn lemma_parse_handler_blind(&self, inp: Inp, rec: bool, s: State<V>, eh2: HandlerModel) {
    }

    fn maybe_label(&self) -> (l: Option<String>) {
        None
    }

    fn parse<EH: ErrorHandler>(
        &self,
        ctx: &mut ParserContext<V>,
        eh: &mut EH,
        input: &mut InputStream<Inp>,
    ) -> (r: Result<Option<char>, MatcherRunError>) {
        let before = input.get_pos();
        match input.next() {
            Some(t) => {
                if self.start <= t && t <= self.end {
                    return Ok(Some(t));
                }
            },
            None => {},
        }
        input.set_pos(before);
        Ok(None)
    }
}

impl<'a, V> Parser<&'a [u8], V> for RangeParser<u8> {
    type Output = u8;

    open spec fn wf(&self) -> bool {
        true
    }

    open spec fn spec_label(&self) -> Option<Seq<char>> {
        None
    }

    open spec fn spec_parse(&self, inp: &'a [u8], rec: bool, s: State<V>) -> (Outcome<Option<u8>>, State<V>) {
        match spec_read_if(inp, s.pos, |t: &'a u8| self.start <= *t <= self.end) {
            Some((t, next)) => (Outcome::Done(Some(*t)), s.at(next)),
            None => (Outcome::Done(None), s),
        }
    }

    proof fn lemma_parse_bounds(&self, inp: &'a [u8], rec: bool, s: State<V>) {
        lemma_grows_same(s, self.spec_parse(inp, rec, s).1);
    }

    proof fn lemma_parse_handler_blind(&self, inp: &'a [u8], rec: bool, s: State<V>, eh2: HandlerModel) {
    }

    fn maybe_label(&self) -> (l: Option<String>) {
        None
    }

    fn parse<EH: ErrorHandler>(
        &self,
        ctx: &mut ParserContext<V>,
        eh: &mut EH,
        input: &mut InputStream<&'a [u8]>,
    ) -> (r: Result<Option<u8>, MatcherRunError>) {
        let before = input.get_pos();
        match input.next() {
            Some(t) => {
                if self.start <= *t && *t <= self.end {
                    return Ok(Some(*t));
                }
            },
            None => {},
        }
        input.set_pos(before);
        Ok(None)
    }
}

/// Parses one token accepted by `check_fn`, producing `parse_fn` of it; consumes nothing
/// on a miss.
pub struct TokenParser<CF, PF> {
    /// Which tokens are accepted.
    pub check_fn: CF,
    /// The value produced for an accepted token.
    pub parse_fn: PF,
}

impl<CF, PF> TokenParser<CF, PF> {
    /// Accept tokens by `check_fn` and produce `parse_fn` of them.
    pub fn new(check_fn: CF, parse_fn: PF) -> (r: Self)
        ensures
            r.check_fn == check_fn,
            r.parse_fn == parse_fn,
    {
        TokenParser { check_fn, parse_fn }
    }
}

/// See [`TokenParser`].
pub fn token_parser<CF, PF>(check_fn: CF, parse_fn: PF) -> (r: TokenParser<CF, PF>)
    ensures
        r.check_fn == check_fn,
        r.parse_fn == parse_fn,
{
    TokenParser::new(check_fn, parse_fn)
}

impl<Inp: Input, V, O, CF: Fn(Inp::Token) -> bool, PF: Fn(Inp::Token) -> O> Parser<Inp, V> for TokenParser<
    CF,
    PF,
> {
    type Output = O;

    open spec fn wf(&self) -> bool {
        fn_exact(self.check_fn) && fn_exact(self.parse_fn)
    }

    open spec fn spec_label(&self) -> Option<Seq<char>> {
        None
    }

    open spec fn spec_parse(&self, inp: Inp, rec: bool, s: State<V>) -> (Outcome<Option<O>>, State<V>) {
        match spec_read_if(inp, s.pos, |t: Inp::Token| apply(self.check_fn, t)) {
            Some((t, next)) => (Outcome::Done(Some(apply(self.parse_fn, t))), s.at(next)),
            None => (Outcome::Done(None), s),
        }
    }

    proof fn lemma_parse_bounds(&self, inp: Inp, rec: bool, s: State<V>) {
        inp.lemma_read_bounds(s.pos, Seq::empty());
        lemma_grows_same(s, self.spec_parse(inp, rec, s).1);
    }

    proof fn lemma_parse_handler_blind(&self, inp: Inp, rec: bool, s: State<V>, eh2: HandlerModel) {
    }

    fn maybe_label(&self) -> (l: Option<String>) {
        None
    }

    fn parse<EH: ErrorHandler>(
        &self,
        ctx: &mut ParserContext<V>,
        eh: &mut EH,
        input: &mut InputStream<Inp>,
    ) -> (r: Result<Option<O>, MatcherRunError>) {
        let before = input.get_pos();
        match input.next() {
            Some(t) => {
                let ok = (self.check_fn)(t);
                proof {
                    lemma_apply(self.check_fn, t, ok);
                }
                if ok {
                    let out = (self.parse_fn)(t);
                    proof {
                        lemma_apply(self.parse_fn, t, out);
                    }
                    return Ok(Some(out));
                }
            },
            None => {},
        }
        input.set_pos(before);
        Ok(None)
    }
}

/// A character range parser accepts exactly the characters of the inclusive range
/// `start..=end`, both ends included: at a readable character in the range it produces that
/// character and moves past it; at any other character, or where nothing can be read, it
/// misses and leaves the state as it was.
pub proof fn lemma_range_char_inclusive<Inp: Input<Token = char>, V>(
    p: RangeParser<char>,
    inp: Inp,
    rec: bool,
    s: State<V>,
)
    ensures
        match inp.spec_read(s.pos) {
            Some((t, next)) => if p.start <= t && t <= p.end {
                <RangeParser<char> as Parser<Inp, V>>::spec_parse(&p, inp, rec, s) == (
                    Outcome::Done(Some(t)),
                    s.at(next),
                )
            } else {
                <RangeParser<char> as Parser<Inp, V>>::spec_parse(&p, inp, rec, s) == (
                    Outcome::<Option<char>>::Done(None),
                    s,
                )
            },
            None => <RangeParser<char> as Parser<Inp, V>>::spec_parse(&p, inp, rec, s) == (
                Outcome::<Option<char>>::Done(None),
                s,
            ),
        },
{
}

/// A byte range parser accepts exactly the bytes of the inclusive range `start..=end`, both
/// ends included: at a byte in the range it produces that byte and moves one byte on; at any
/// other byte, or at the end of the input, it misses and leaves the state as it was.
pub proof fn lemma_range_byte_inclusive<'a, V>(p: RangeParser<u8>, inp: &'a [u8], rec: bool, s: State<V>)
    ensures
        if 0 <= s.pos < inp@.len() && p.start <= inp@[s.pos] && inp@[s.pos] <= p.end {
            <RangeParser<u8> as Parser<&'a [u8], V>>::spec_parse(&p, inp, rec, s) == (
                Outcome::Done(Some(inp@[s.pos])),
                s.at(s.pos + 1),
            )
        } else {
            <RangeParser<u8> as Parser<&'a [u8], V>>::spec_parse(&p, inp, rec, s) == (
                Outcome::<Option<u8>>::Done(None),
                s,
            )
        },
{
}

/// A single-character parser accepts exactly its character: where that character is read it
/// produces it and moves past it; anywhere else it misses and leaves the state as it was.
pub proof fn lemma_single_char_exact<Inp: Input<Token = char>, V>(
    p: SingleTokenParser<char>,
    inp: Inp,
    rec: bool,
    s: State<V>,
)
    ensures
        match inp.spec_read(s.pos) {
            Some((t, next)) => if t == p.token {
                <SingleTokenParser<char> as Parser<Inp, V>>::spec_parse(&p, inp, rec, s) == (
                    Outcome::Done(Some(t)),
                    s.at(next),
                )
            } else {
                <SingleTokenParser<char> as Parser<Inp, V>>::spec_parse(&p, inp, rec, s) == (
                    Outcome::<Option<char>>::Done(None),
                    s,
                )
            },
            None => <SingleTokenParser<char> as Parser<Inp, V>>::spec_parse(&p, inp, rec, s) == (
                Outcome::<Option<char>>::Done(None),
                s,
            ),
        },
{
}

/// A single-byte parser accepts exactly its byte: where the next byte is that byte it
/// produces it and moves one byte on; anywhere else it misses and leaves the state as it was.
pub proof fn lemma_single_byte_exact<'a, V>(p: SingleTokenParser<u8>, inp: &'a [u8], rec: bool, s: State<V>)
    ensures
        if 0 <= s.pos < inp@.len() && inp@[s.pos] == p.token {
            <SingleTokenParser<u8> as Parser<&'a [u8], V>>::spec_parse(&p, inp, rec, s) == (
                Outcome::Done(Some(p.token)),
                s.at(s.pos + 1),
            )
        } else {
            <SingleTokenParser<u8> as Parser<&'a [u8], V>>::spec_parse(&p, inp, rec, s) == (
                Outcome::<Option<u8>>::Done(None),
                s,
            )
        },
{
}

/// A token parser accepts a readable token exactly where its check function accepts it, and
/// then produces its parse function's value for that token and moves past it; otherwise it
/// misses and leaves the state as it was.
pub proof fn lemma_token_parser_accepts<Inp: Input, V, O, CF: Fn(Inp::Token) -> bool, PF: Fn(Inp::Token) -> O>(
    p: TokenParser<CF, PF>,
    inp: Inp,
    rec: bool,
    s: State<V>,
)
    ensures
        match inp.spec_read(s.pos) {
            Some((t, next)) => if apply(p.check_fn, t) {
                <TokenParser<CF, PF> as Parser<Inp, V>>::spec_parse(&p, inp, rec, s) == (
                    Outcome::Done(Some(apply(p.parse_fn, t))),
                    s.at(next),
                )
            } else {
                <TokenParser<CF, PF> as Parser<Inp, V>>::spec_parse(&p, inp, rec, s) == (
                    Outcome::<Option<O>>::Done(None),
                    s,
                )
            },
            None => <TokenParser<CF, PF> as Parser<Inp, V>>::spec_parse(&p, inp, rec, s) == (
                Outcome::<Option<O>>::Done(None),
                s,
            ),
        },
{
}

} // verus!
