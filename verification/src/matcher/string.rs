//! Literal matchers: character runs (`StringMatcher`, `&str`, `char`) over a `char` token
//! stream, and bytes (`u8`, `&[u8]`) over a byte slice.
//!
//! A character run is first offered to the input's byte fast path when all its characters
//! are ASCII; where the input offers no fast path, the characters are read token by token.
use vstd::prelude::*;
use crate::error_handler::HandlerModel;
use vstd::string::*;
use vstd::utf8::*;
use crate::context::{Outcome, ParserContext, State};
use crate::error::MatcherRunError;
use crate::error_handler::ErrorHandler;
use crate::input::{Input, InputStream, all_ascii, byte_prefix_at, str_prefix_bytes, str_read};
use crate::matcher::{Matcher, NoMemoizeBacktrackingRunner, lemma_grows_same};
use crate::render::{push_decimal, push_str, string_from_chars};

verus! {

broadcast use vstd::seq::group_seq_axioms;

/// Reading `expected` token by token from `pos`: whether every token read equals the
/// expected character, and the position after the last token read (a mismatching token is
/// consumed; a failed read consumes nothing).
pub open spec fn spec_read_chars<Inp: Input<Token = char>>(
    inp: Inp,
    pos: int,
    expected: Seq<char>,
) -> (bool, int)
    decreases expected.len(),
{
    if expected.len() == 0 {
        (true, pos)
    } else {
        match inp.spec_read(pos) {
            Some((t, next)) => {
                if t == expected[0] {
                    spec_read_chars(inp, next, expected.drop_first())
                } else {
                    (false, next)
                }
            },
            None => (false, pos),
        }
    }
}

/// Every character of the run is ASCII.
pub open spec fn ascii_run(chars: Seq<char>) -> bool {
    forall|i: int| 0 <= i < chars.len() ==> #[trigger] chars[i] <= '\u{7f}'
}

/// The bytes of an ASCII character run.
pub open spec fn ascii_bytes(chars: Seq<char>) -> Seq<u8> {
    chars.map_values(|c: char| c as u8)
}

/// Matching the character run `expected` at `pos`: the byte fast path where the run is
/// ASCII and the input offers one, else reading token by token.
pub open spec fn spec_match_chars<Inp: Input<Token = char>>(
    inp: Inp,
    pos: int,
    expected: Seq<char>,
) -> (bool, int) {
    if ascii_run(expected) && inp.spec_prefix_bytes(pos, ascii_bytes(expected)) is Some {
        match inp.spec_prefix_bytes(pos, ascii_bytes(expected)).unwrap() {
            Some(next) => (true, next),
            None => (false, pos),
        }
    } else {
        spec_read_chars(inp, pos, expected)
    }
}

/// Reading a run stays within the input and never moves backwards.
pub proof fn lemma_read_chars_bounds<Inp: Input<Token = char>>(
    inp: Inp,
    pos: int,
    expected: Seq<char>,
)
    requires
        0 <= pos <= inp.spec_len(),
    ensures
        pos <= spec_read_chars(inp, pos, expected).1 <= inp.spec_len(),
    decreases expected.len(),
{
    inp.lemma_read_bounds(pos, Seq::empty());
    if expected.len() > 0 {
        if let Some((t, next)) = inp.spec_read(pos) {
            if t == expected[0] {
                lemma_read_chars_bounds(inp, next, expected.drop_first());
            }
        }
    }
}

/// Matching a run stays within the input and never moves backwards.
pub proof fn lemma_match_chars_bounds<Inp: Input<Token = char>>(
    inp: Inp,
    pos: int,
    expected: Seq<char>,
)
    requires
        0 <= pos <= inp.spec_len(),
    ensures
        pos <= spec_match_chars(inp, pos, expected).1 <= inp.spec_len(),
{
    inp.lemma_read_bounds(pos, ascii_bytes(expected));
    lemma_read_chars_bounds(inp, pos, expected);
}

/// An ASCII character and its byte stand for each other.
proof fn lemma_ascii_char_byte(c: char, b: u8)
    requires
        c <= '\u{7f}',
        b < 128,
    ensures
        (c as u8 == b) <==> (b as char == c),
        (c as u8) < 128,
{
}

/// The bytes of an ASCII run are ASCII.
proof fn lemma_ascii_bytes_ascii(chars: Seq<char>)
    requires
        ascii_run(chars),
    ensures
        all_ascii(ascii_bytes(chars)),
        ascii_bytes(chars).len() == chars.len(),
{
    assert forall|i: int| 0 <= i < ascii_bytes(chars).len() implies #[trigger] ascii_bytes(chars)[i] < 128 by {
        lemma_ascii_char_byte(chars[i], 0);
    }
}

/// A token read from a string at a byte that is not ASCII is not an ASCII character.
proof fn lemma_str_read_non_ascii(s: &str, pos: int)
    requires
        0 <= pos < s.spec_bytes().len(),
        s.spec_bytes()[pos] >= 128,
    ensures
        str_read(s.spec_bytes(), pos) matches Some((t, _)) ==> !(t <= '\u{7f}'),
{
    let bytes = s.spec_bytes();
    if is_char_boundary(bytes, pos) {
        encode_utf8_valid_utf8(s@);
        valid_utf8_split(bytes, pos);
        let rest = bytes.subrange(pos, bytes.len() as int);
        assert(valid_first_scalar(rest));
        assert(rest[0] == bytes[pos]);
        let t = decode_first_scalar(rest) as char;
        decode_utf8_first_scalar(rest);
        if t <= '\u{7f}' {
            assert((t as u32) <= 0x7f);
            assert(encode_scalar(t as u32).len() == 1);
            assert(take_first_scalar(rest).len() >= 2);
        }
    }
}

/// On a string, the byte fast path answers as reading the run token by token does: where
/// the bytes match, the tokens match and end at the same position; where they differ, a
/// token differs.
pub proof fn lemma_str_prefix_bytes_agree(s: &str, pos: int, expected: Seq<char>)
    requires
        0 <= pos <= s.spec_bytes().len(),
        ascii_run(expected),
    ensures
        str_prefix_bytes(s.spec_bytes(), pos, ascii_bytes(expected)) matches Some(Some(n))
            ==> spec_read_chars(s, pos, expected) == (true, n),
        str_prefix_bytes(s.spec_bytes(), pos, ascii_bytes(expected)) == Some(None::<int>)
            ==> !spec_read_chars(s, pos, expected).0,
    decreases expected.len(),
{
    let bytes = s.spec_bytes();
    lemma_ascii_bytes_ascii(expected);
    if expected.len() > 0 {
        let c = expected[0];
        let tail = expected.drop_first();
        assert(ascii_run(tail)) by {
            assert forall|i: int| 0 <= i < tail.len() implies #[trigger] tail[i] <= '\u{7f}' by {
                assert(tail[i] == expected[i + 1]);
            }
        }
        assert(c <= '\u{7f}');
        let n = expected.len();
        if pos + n <= bytes.len() {
            let sub = bytes.subrange(pos, pos + n);
            lemma_ascii_char_byte(c, 0);
            if bytes[pos] < 128 {
                lemma_ascii_char_byte(c, bytes[pos]);
                assert(str_read(bytes, pos) == Some((bytes[pos] as char, pos + 1)));
                if sub == ascii_bytes(expected) {
                    assert(sub[0] == bytes[pos]);
                    assert(ascii_bytes(expected)[0] == c as u8);
                    lemma_str_prefix_bytes_agree(s, pos + 1, tail);
                    if tail.len() > 0 {
                        lemma_ascii_bytes_ascii(tail);
                        assert(bytes.subrange(pos + 1, pos + 1 + tail.len()) =~= ascii_bytes(tail)) by {
                            assert forall|i: int| 0 <= i < tail.len() implies bytes.subrange(
                                pos + 1,
                                pos + 1 + tail.len(),
                            )[i] == #[trigger] ascii_bytes(tail)[i] by {
                                assert(sub[i + 1] == ascii_bytes(expected)[i + 1]);
                            }
                        }
                    }
                } else if bytes[pos] == c as u8 {
                    assert(bytes.subrange(pos + 1, pos + 1 + tail.len()) != ascii_bytes(tail)) by {
                        if bytes.subrange(pos + 1, pos + 1 + tail.len()) == ascii_bytes(tail) {
                            assert(sub =~= ascii_bytes(expected)) by {
                                assert forall|i: int| 0 <= i < n implies sub[i] == #[trigger] ascii_bytes(expected)[i] by {
                                    if i > 0 {
                                        assert(bytes.subrange(pos + 1, pos + 1 + tail.len())[i - 1]
                                            == ascii_bytes(tail)[i - 1]);
                                    }
                                }
                            }
                        }
                    }
                    lemma_ascii_bytes_ascii(tail);
                    if tail.len() == 0 {
                        assert(bytes.subrange(pos + 1, pos + 1 + tail.len()) =~= ascii_bytes(tail));
                    }
                    assert(str_prefix_bytes(bytes, pos + 1, ascii_bytes(tail)) == Some(None::<int>));
                    lemma_str_prefix_bytes_agree(s, pos + 1, tail);
                }
            } else {
                lemma_str_read_non_ascii(s, pos);
                assert(sub[0] == bytes[pos]);
                assert(ascii_bytes(expected)[0] == c as u8);
            }
        } else {
            lemma_str_read_past_end(s, pos, expected);
        }
    }
}

/// Reading an ASCII run that does not fit before the end of a string does not match: each
/// ASCII character takes one byte.
proof fn lemma_str_read_past_end(s: &str, pos: int, expected: Seq<char>)
    requires
        0 <= pos <= s.spec_bytes().len(),
        ascii_run(expected),
        pos + expected.len() > s.spec_bytes().len(),
    ensures
        !spec_read_chars(s, pos, expected).0,
    decreases expected.len(),
{
    let bytes = s.spec_bytes();
    let c = expected[0];
    let tail = expected.drop_first();
    assert(c <= '\u{7f}');
    if pos < bytes.len() {
        if bytes[pos] < 128 {
            assert(str_read(bytes, pos) == Some((bytes[pos] as char, pos + 1)));
            if bytes[pos] as char == c {
                assert(ascii_run(tail)) by {
                    assert forall|i: int| 0 <= i < tail.len() implies #[trigger] tail[i] <= '\u{7f}' by {
                        assert(tail[i] == expected[i + 1]);
                    }
                }
                lemma_str_read_past_end(s, pos + 1, tail);
            }
        } else {
            lemma_str_read_non_ascii(s, pos);
        }
    }
}

/// On a string, matching a character run gives the answer of reading it token by token,
/// and on a match the same end position: the byte fast path changes nothing but speed.
pub proof fn lemma_str_fast_path_agrees(s: &str, pos: int, expected: Seq<char>)
    requires
        0 <= pos <= s.spec_bytes().len(),
    ensures
        spec_match_chars(s, pos, expected).0 == spec_read_chars(s, pos, expected).0,
        spec_match_chars(s, pos, expected).0 ==> spec_match_chars(s, pos, expected).1
            == spec_read_chars(s, pos, expected).1,
{
    if ascii_run(expected) {
        lemma_str_prefix_bytes_agree(s, pos, expected);
    }
}

/// The characters of `s`.
pub fn str_chars(s: &str) -> (v: Vec<char>)
    ensures
        v@ == s@,
{
    let mut v: Vec<char> = Vec::new();
    if s.is_ascii() {
        let bytes = s.as_bytes();
        proof {
            is_ascii_chars_encode_utf8(s@);
        }
        let mut i: usize = 0;
        while i < bytes.len()
            invariant
                0 <= i <= bytes@.len(),
                bytes@ == encode_utf8(s@),
                bytes@.len() == s@.len(),
                is_ascii_chars(s@),
                forall|k: int| 0 <= k < s@.len() ==> s@[k] as u8 == #[trigger] bytes@[k],
                v@ == s@.take(i as int),
            decreases bytes@.len() - i,
        {
            let c = bytes[i] as char;
            proof {
                assert(s@[i as int] as u8 == bytes@[i as int]);
                assert('\0' <= s@[i as int] <= '\u{7f}');
                assert(c == s@[i as int]);
            }
            v.push(c);
            i = i + 1;
            proof {
                assert(v@ =~= s@.take(i as int));
            }
        }
        proof {
            assert(v@ =~= s@);
        }
    } else {
        let n = s.unicode_len();
        let mut i: usize = 0;
        while i < n
            invariant
                0 <= i <= n,
                n == s@.len(),
                v@ == s@.take(i as int),
            decreases n - i,
        {
            let c = s.get_char(i);
            v.push(c);
            i = i + 1;
            proof {
                assert(v@ =~= s@.take(i as int));
            }
        }
        proof {
            assert(v@ =~= s@);
        }
    }
    v
}

/// Match the character run `expected` at the cursor (see [`spec_match_chars`]).
pub fn match_chars<Inp: Input<Token = char>>(input: &mut InputStream<Inp>, expected: &Vec<char>) -> (b:
    bool)
    requires
        old(input).pos <= old(input).input.spec_len(),
    ensures
        final(input).input == old(input).input,
        (b, final(input).pos as int) == spec_match_chars(
            old(input).input,
            old(input).pos as int,
            expected@,
        ),
{
    let ghost inp = input.input;
    let ghost pos0 = input.pos as int;
    let mut ascii_only = true;
    let mut k: usize = 0;
    while k < expected.len()
        invariant
            0 <= k <= expected@.len(),
            ascii_only == ascii_run(expected@.take(k as int)),
        decreases expected@.len() - k,
    {
        let c = expected[k];
        if c > '\u{7f}' {
            ascii_only = false;
        }
        k = k + 1;
        proof {
            let t = expected@.take(k as int);
            let p = expected@.take(k - 1);
            assert(t[k - 1] == c);
            if ascii_run(t) {
                assert forall|j: int| 0 <= j < p.len() implies #[trigger] p[j] <= '\u{7f}' by {
                    assert(t[j] == p[j]);
                }
            }
            if ascii_run(p) && c <= '\u{7f}' {
                assert forall|j: int| 0 <= j < t.len() implies #[trigger] t[j] <= '\u{7f}' by {
                    if j < k - 1 {
                        assert(t[j] == p[j]);
                    }
                }
            }
        }
    }
    proof {
        assert(expected@.take(k as int) =~= expected@);
    }
    if ascii_only {
        let mut buf: Vec<u8> = Vec::new();
        let mut i: usize = 0;
        while i < expected.len()
            invariant
                0 <= i <= expected@.len(),
                buf@ == ascii_bytes(expected@).take(i as int),
            decreases expected@.len() - i,
        {
            buf.push(expected[i] as u8);
            i = i + 1;
            proof {
                assert(buf@ =~= ascii_bytes(expected@).take(i as int));
            }
        }
        proof {
            assert(buf@ =~= ascii_bytes(expected@));
        }
        match input.try_consume_prefix_bytes(buf.as_slice()) {
            Some(ok) => {
                return ok;
            },
            None => {},
        }
    }
    let mut i: usize = 0;
    while i < expected.len()
        invariant
            0 <= i <= expected@.len(),
            inp == old(input).input,
            pos0 == old(input).pos,
            input.input == inp,
            0 <= pos0 <= inp.spec_len(),
            0 <= input.pos <= inp.spec_len(),
            spec_read_chars(inp, input.pos as int, expected@.skip(i as int)) == spec_read_chars(
                inp,
                pos0,
                expected@,
            ),
            spec_match_chars(inp, pos0, expected@) == spec_read_chars(inp, pos0, expected@),
        decreases expected@.len() - i,
    {
        proof {
            inp.lemma_read_bounds(input.pos as int, Seq::empty());
            assert(expected@.skip(i as int).drop_first() =~= expected@.skip(i + 1));
        }
        match input.next() {
            Some(t) => {
                if t != expected[i] {
                    return false;
                }
            },
            None => {
                return false;
            },
        }
        i = i + 1;
    }
    proof {
        assert(expected@.skip(i as int) =~= Seq::<char>::empty());
    }
    true
}

/// Matches a fixed run of characters.
pub struct StringMatcher {
    /// The characters to match.
    pub expected: Vec<char>,
    /// The run as a string, used as the label.
    pub text: String,
}

impl StringMatcher {
    /// Match the characters of `expected`.
    pub fn new(expected: String) -> (r: Self)
        ensures
            r.expected@ == expected@,
            r.text@ == expected@,
    {
        let chars = str_chars(expected.as_str());
        StringMatcher { expected: chars, text: expected }
    }
}

impl<Inp: Input<Token = char>, V> Matcher<Inp, V> for StringMatcher {
    open spec fn wf(&self) -> bool {
        self.text@ == self.expected@
    }

    open spec fn spec_label(&self) -> Option<Seq<char>> {
        Some(self.text@)
    }

    open spec fn spec_match(&self, inp: Inp, rec: bool, s: State<V>) -> (Outcome<bool>, State<V>) {
        let (b, next) = spec_match_chars(inp, s.pos, self.expected@);
        (Outcome::Done(b), s.at(next))
    }

    proof fn lemma_match_bounds(&self, inp: Inp, rec: bool, s: State<V>) {
        lemma_match_chars_bounds(inp, s.pos, self.expected@);
        lemma_grows_same(s, self.spec_match(inp, rec, s).1);
    }

    proof fn lemma_match_handler_blind(&self, inp: Inp, rec: bool, s: State<V>, eh2: HandlerModel) {
    }

    fn maybe_label(&self) -> (l: Option<String>) {
        Some(self.text.clone())
    }

    fn match_with_runner<EH: ErrorHandler>(
        &self,
        ctx: &mut ParserContext<V>,
        runner: &mut NoMemoizeBacktrackingRunner<V>,
        eh: &mut EH,
        input: &mut InputStream<Inp>,
    ) -> (r: Result<bool, MatcherRunError>) {
        Ok(match_chars(input, &self.expected))
    }
}

impl<'b, Inp: Input<Token = char>, V> Matcher<Inp, V> for &'b str {
    open spec fn wf(&self) -> bool {
        true
    }

    open spec fn spec_label(&self) -> Option<Seq<char>> {
        Some(self@)
    }

    open spec fn spec_match(&self, inp: Inp, rec: bool, s: State<V>) -> (Outcome<bool>, State<V>) {
        let (b, next) = spec_match_chars(inp, s.pos, self@);
        (Outcome::Done(b), s.at(next))
    }

    proof fn lemma_match_bounds(&self, inp: Inp, rec: bool, s: State<V>) {
        lemma_match_chars_bounds(inp, s.pos, self@);
        lemma_grows_same(s, self.spec_match(inp, rec, s).1);
    }

    proof fn lemma_match_handler_blind(&self, inp: Inp, rec: bool, s: State<V>, eh2: HandlerModel) {
    }

    fn maybe_label(&self) -> (l: Option<String>) {
        Some((*self).to_owned())
    }

    fn match_with_runner<EH: ErrorHandler>(
        &self,
        ctx: &mut ParserContext<V>,
        runner: &mut NoMemoizeBacktrackingRunner<V>,
        eh: &mut EH,
        input: &mut InputStream<Inp>,
    ) -> (r: Result<bool, MatcherRunError>) {
        let chars = str_chars(*self);
        Ok(match_chars(input, &chars))
    }
}

/// `char::to_string`: std documents that it returns a string holding exactly that character.
#[verifier::external_body]
fn char_to_string(c: char) -> (s: String)
    ensures
        s@ == seq![c],
{
    c.to_string()
}

impl<Inp: Input<Token = char>, V> Matcher<Inp, V> for char {
    open spec fn wf(&self) -> bool {
        true
    }

    open spec fn spec_label(&self) -> Option<Seq<char>> {
        Some(seq![*self])
    }

    open spec fn spec_match(&self, inp: Inp, rec: bool, s: State<V>) -> (Outcome<bool>, State<V>) {
        match inp.spec_read(s.pos) {
            Some((t, next)) => (Outcome::Done(t == *self), s.at(next)),
            None => (Outcome::Done(false), s),
        }
    }

    proof fn lemma_match_bounds(&self, inp: Inp, rec: bool, s: State<V>) {
        inp.lemma_read_bounds(s.pos, Seq::empty());
        lemma_grows_same(s, self.spec_match(inp, rec, s).1);
    }

    proof fn lemma_match_handler_blind(&self, inp: Inp, rec: bool, s: State<V>, eh2: HandlerModel) {
    }

    fn maybe_label(&self) -> (l: Option<String>) {
        Some(char_to_string(*self))
    }

    fn match_with_runner<EH: ErrorHandler>(
        &self,
        ctx: &mut ParserContext<V>,
        runner: &mut NoMemoizeBacktrackingRunner<V>,
        eh: &mut EH,
        input: &mut InputStream<Inp>,
    ) -> (r: Result<bool, MatcherRunError>) {
        proof {
            input.input.lemma_read_bounds(input.pos as int, Seq::empty());
        }
        match input.next() {
            Some(t) => Ok(t == *self),
            None => Ok(false),
        }
    }
}

/// The decimal digits of `n`.
pub open spec fn decimal(n: nat) -> Seq<char>
    decreases n,
{
    if n < 10 {
        seq![(n + 48) as char]
    } else {
        decimal(n / 10).push(((n % 10) + 48) as char)
    }
}

/// The label of the byte `b`: `byte` and its decimal value.
fn byte_label(b: u8) -> (s: String)
    ensures
        s@ == seq!['b', 'y', 't', 'e', ' '] + decimal(b as nat),
{
    let mut out: Vec<char> = Vec::new();
    let prefix = "byte ";
    proof {
        reveal_strlit("byte ");
    }
    push_str(&mut out, prefix);
    push_decimal(&mut out, b as usize);
    proof {
        assert(out@ =~= seq!['b', 'y', 't', 'e', ' '] + decimal(b as nat));
    }
    string_from_chars(out)
}

impl<'a, V> Matcher<&'a [u8], V> for u8 {
    open spec fn wf(&self) -> bool {
        true
    }

    open spec fn spec_label(&self) -> Option<Seq<char>> {
        Some(seq!['b', 'y', 't', 'e', ' '] + decimal(*self as nat))
    }

    open spec fn spec_match(&self, inp: &'a [u8], rec: bool, s: State<V>) -> (Outcome<bool>, State<V>) {
        match inp.spec_read(s.pos) {
            Some((t, next)) => (Outcome::Done(*t == *self), s.at(next)),
            None => (Outcome::Done(false), s),
        }
    }

    proof fn lemma_match_bounds(&self, inp: &'a [u8], rec: bool, s: State<V>) {
        lemma_grows_same(s, self.spec_match(inp, rec, s).1);
    }

    proof fn lemma_match_handler_blind(&self, inp: &'a [u8], rec: bool, s: State<V>, eh2: HandlerModel) {
    }

    fn maybe_label(&self) -> (l: Option<String>) {
        Some(byte_label(*self))
    }

    fn match_with_runner<EH: ErrorHandler>(
        &self,
        ctx: &mut ParserContext<V>,
        runner: &mut NoMemoizeBacktrackingRunner<V>,
        eh: &mut EH,
        input: &mut InputStream<&'a [u8]>,
    ) -> (r: Result<bool, MatcherRunError>) {
        match input.next() {
            Some(t) => Ok(*t == *self),
            None => Ok(false),
        }
    }
}

/// The label of a byte run: the run decoded as UTF-8 where it is valid, else `<bytes>`.
pub open spec fn bytes_label_view(bytes: Seq<u8>) -> Seq<char> {
    if valid_utf8(bytes) {
        decode_utf8(bytes)
    } else {
        seq!['<', 'b', 'y', 't', 'e', 's', '>']
    }
}

/// `std::str::from_utf8`: std documents that it succeeds exactly on valid UTF-8, with the
/// string slice whose bytes are the input; the error is dropped.
#[verifier::external_body]
fn str_from_utf8(b: &[u8]) -> (r: Option<&str>)
    ensures
        r is Some <==> valid_utf8(b@),
        r matches Some(s) ==> s.spec_bytes() == b@,
{
    match std::str::from_utf8(b) {
        Ok(s) => Some(s),
        Err(_) => None,
    }
}

/// The label of the byte run `b` (see [`bytes_label_view`]).
fn bytes_label(b: &[u8]) -> (s: String)
    ensures
        s@ == bytes_label_view(b@),
{
    match str_from_utf8(b) {
        Some(t) => {
            proof {
                encode_utf8_decode_utf8(t@);
            }
            t.to_owned()
        },
        None => {
            let fallback = "<bytes>";
            proof {
                reveal_strlit("<bytes>");
                assert(fallback@ =~= seq!['<', 'b', 'y', 't', 'e', 's', '>']);
            }
            fallback.to_owned()
        },
    }
}

impl<'a, 'b, V> Matcher<&'a [u8], V> for &'b [u8] {
    open spec fn wf(&self) -> bool {
        true
    }

    open spec fn spec_label(&self) -> Option<Seq<char>> {
        Some(bytes_label_view(self@))
    }

    open spec fn spec_match(&self, inp: &'a [u8], rec: bool, s: State<V>) -> (Outcome<bool>, State<V>) {
        if self@.len() == 0 {
            (Outcome::Done(true), s)
        } else if byte_prefix_at(inp@, s.pos, self@) {
            (Outcome::Done(true), s.at(s.pos + self@.len()))
        } else {
            (Outcome::Done(false), s)
        }
    }

    proof fn lemma_match_bounds(&self, inp: &'a [u8], rec: bool, s: State<V>) {
        lemma_grows_same(s, self.spec_match(inp, rec, s).1);
    }

    proof fn lemma_match_handler_blind(&self, inp: &'a [u8], rec: bool, s: State<V>, eh2: HandlerModel) {
    }

    fn maybe_label(&self) -> (l: Option<String>) {
        Some(bytes_label(*self))
    }

    fn match_with_runner<EH: ErrorHandler>(
        &self,
        ctx: &mut ParserContext<V>,
        runner: &mut NoMemoizeBacktrackingRunner<V>,
        eh: &mut EH,
        input: &mut InputStream<&'a [u8]>,
    ) -> (r: Result<bool, MatcherRunError>) {
        Ok(input.try_consume_byte_prefix(*self))
    }
}

/// A character matcher reads one token: it matches exactly where that token is its
/// character, and moves past the token it read either way; where nothing can be read it
/// misses without moving.
pub proof fn lemma_char_matches_its_token<Inp: Input<Token = char>, V>(c: char, inp: Inp, rec: bool, s: State<V>)
    ensures
        match inp.spec_read(s.pos) {
            Some((t, next)) => <char as Matcher<Inp, V>>::spec_match(&c, inp, rec, s) == (
                Outcome::<bool>::Done(t == c),
                s.at(next),
            ),
            None => <char as Matcher<Inp, V>>::spec_match(&c, inp, rec, s) == (Outcome::<bool>::Done(false), s),
        },
{
}

/// A byte matcher reads one byte: it matches exactly where that byte is its byte, and moves
/// one byte on either way; at the end of the input it misses without moving.
pub proof fn lemma_byte_matches_its_byte<'a, V>(b: u8, inp: &'a [u8], rec: bool, s: State<V>)
    ensures
        if 0 <= s.pos < inp@.len() {
            <u8 as Matcher<&'a [u8], V>>::spec_match(&b, inp, rec, s) == (
                Outcome::<bool>::Done(inp@[s.pos] == b),
                s.at(s.pos + 1),
            )
        } else {
            <u8 as Matcher<&'a [u8], V>>::spec_match(&b, inp, rec, s) == (Outcome::<bool>::Done(false), s)
        },
{
}

/// A byte-string matcher matches exactly where the input holds its bytes at the position,
/// and then moves past them; elsewhere it misses without moving. The empty byte string
/// always matches, consuming nothing.
pub proof fn lemma_bytes_match_prefix<'a, 'b, V>(lit: &'b [u8], inp: &'a [u8], rec: bool, s: State<V>)
    requires
        0 <= s.pos,
    ensures
        ({
            let (o, s2) = <&'b [u8] as Matcher<&'a [u8], V>>::spec_match(&lit, inp, rec, s);
            let n = lit@.len();
            &&& o == Outcome::<bool>::Done(n == 0 || (s.pos + n <= inp@.len() && inp@.subrange(
                s.pos,
                s.pos + n,
            ) == lit@))
            &&& s2 == (if o == Outcome::<bool>::Done(true) {
                s.at(s.pos + n)
            } else {
                s
            })
        }),
{
}

/// On a string, a literal matches exactly where reading its characters one token at a time
/// matches them all, and then ends where that reading ends; elsewhere it misses without
/// moving. The byte fast path changes nothing of this.
pub proof fn lemma_str_literal_reads_its_chars<'b, 'c, V>(lit: &'b str, inp: &'c str, rec: bool, s: State<V>)
    requires
        0 <= s.pos <= inp.spec_bytes().len(),
    ensures
        ({
            let (o, s2) = <&'b str as Matcher<&'c str, V>>::spec_match(&lit, inp, rec, s);
            let (b, end) = spec_read_chars(inp, s.pos, lit@);
            &&& o == Outcome::<bool>::Done(b)
            &&& b ==> s2 == s.at(end)
            &&& s2.pos >= s.pos
        }),
{
    lemma_str_fast_path_agrees(inp, s.pos, lit@);
    lemma_match_chars_bounds(inp, s.pos, lit@);
}

/// On a string, a [`StringMatcher`] matches exactly where reading its characters one token at
/// a time matches them all, and then ends where that reading ends.
pub proof fn lemma_string_matcher_reads_its_chars<'c, V>(m: StringMatcher, inp: &'c str, rec: bool, s: State<V>)
    requires
        0 <= s.pos <= inp.spec_bytes().len(),
    ensures
        ({
            let (o, s2) = <StringMatcher as Matcher<&'c str, V>>::spec_match(&m, inp, rec, s);
            let (b, end) = spec_read_chars(inp, s.pos, m.expected@);
            &&& o == Outcome::<bool>::Done(b)
            &&& b ==> s2 == s.at(end)
        }),
{
    lemma_str_fast_path_agrees(inp, s.pos, m.expected@);
}

} // verus!
