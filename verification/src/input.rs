//! Input abstractions for parsers and matchers.
//!
//! A parse reads any source that yields tokens one by one through [`Input`].
//! Two inputs are provided: `&str` (token = `char`, positions are byte offsets into the
//! UTF-8 encoding) and `&[T]` (token = `&T`, positions are element indices).
//! [`SliceableInput`] recovers the exact consumed slice for a range of positions.
//!
//! For `&str`, [`Input::try_consume_prefix_bytes`] compares an ASCII literal directly
//! against the UTF-8 bytes;
//! [`crate::matcher::string::lemma_str_fast_path_agrees`] proves that this fast path
//! answers exactly as reading the literal token by token would.
use vstd::prelude::*;
use vstd::utf8::*;
use vstd::string::*;

verus! {

broadcast use vstd::seq::group_seq_axioms, vstd::slice::group_slice_axioms;

/// Stream-like source that parsers and matchers read from.
///
/// The model of an input is a partial reading function: at a position it yields a token
/// and the position after it, or nothing.
pub trait Input: Sized {
    /// Token type yielded by this input.
    type Token: Copy;

    /// The end position of the input.
    spec fn spec_len(&self) -> nat;

    /// One token read at `pos`: the token and the position just after it.
    spec fn spec_read(&self, pos: int) -> Option<(Self::Token, int)>;

    /// The byte-prefix fast path at `pos`: `None` where the input offers none (the caller
    /// falls back to reading tokens), `Some(None)` on a mismatch, `Some(Some(next))` on a match.
    spec fn spec_prefix_bytes(&self, pos: int, prefix: Seq<u8>) -> Option<Option<int>>;

    /// Reading moves strictly forward and never past the end.
    proof fn lemma_read_bounds(&self, pos: int, prefix: Seq<u8>)
        requires
            0 <= pos <= self.spec_len(),
        ensures
            self.spec_read(pos) matches Some((_, next)) ==> pos < next <= self.spec_len(),
            self.spec_prefix_bytes(pos, prefix) matches Some(Some(next)) ==> pos <= next
                <= self.spec_len(),
    ;

    /// The end position of the input.
    fn len(&self) -> (n: usize)
        ensures
            n == self.spec_len(),
    ;

    /// Starting position for a fresh parse.
    fn start_pos(&self) -> (p: usize)
        ensures
            p == 0,
    ;

    /// Read one token at `pos`, advancing it on success.
    fn read_token(&mut self, pos: &mut usize) -> (tok: Option<Self::Token>)
        ensures
            *final(self) == *old(self),
            match old(self).spec_read(*old(pos) as int) {
                Some((t, next)) => tok == Some(t) && *final(pos) as int == next,
                None => tok is None && *final(pos) == *old(pos),
            },
    ;

    /// If supported, compare the bytes at `pos` with `prefix` and advance `pos` by
    /// `prefix.len()` on a match; `None` when this input offers no such fast path.
    fn try_consume_prefix_bytes(&mut self, pos: &mut usize, prefix: &[u8]) -> (r: Option<bool>)
        ensures
            *final(self) == *old(self),
            match old(self).spec_prefix_bytes(*old(pos) as int, prefix@) {
                None => r is None && *final(pos) == *old(pos),
                Some(None) => r == Some(false) && *final(pos) == *old(pos),
                Some(Some(next)) => r == Some(true) && *final(pos) as int == next,
            },
    ;
}

/// [`Input`] that can also return the slice for a consumed range.
pub trait SliceableInput: Input {
    /// Borrowed slice type returned for matched ranges.
    type Slice;

    /// Whether `start..end` can be sliced (slicing panics otherwise).
    spec fn spec_can_slice(&self, start: int, end: int) -> bool;

    /// `s` is the slice of this input covering `start..end`.
    spec fn spec_is_slice(&self, start: int, end: int, s: Self::Slice) -> bool;

    /// Return the input slice covering `range`.
    fn slice(&self, range: std::ops::Range<usize>) -> (s: Self::Slice)
        requires
            self.spec_can_slice(range.start as int, range.end as int),
        ensures
            self.spec_is_slice(range.start as int, range.end as int, s),
    ;
}

/// One token read from the UTF-8 bytes of a string at byte offset `pos`: an ASCII byte is
/// its own token; otherwise, at a code point boundary, the scalar that starts there.
pub open spec fn str_read(bytes: Seq<u8>, pos: int) -> Option<(char, int)> {
    if 0 <= pos < bytes.len() {
        if bytes[pos] < 128 {
            Some((bytes[pos] as char, pos + 1))
        } else if is_char_boundary(bytes, pos) {
            let rest = bytes.subrange(pos, bytes.len() as int);
            Some((decode_first_scalar(rest) as char, pos + length_of_first_scalar(rest)))
        } else {
            None
        }
    } else {
        None
    }
}

/// Every byte of `s` is ASCII.
pub open spec fn all_ascii(s: Seq<u8>) -> bool {
    forall|i: int| 0 <= i < s.len() ==> #[trigger] s[i] < 128
}

/// The byte-prefix fast path on the UTF-8 bytes of a string.
pub open spec fn str_prefix_bytes(bytes: Seq<u8>, pos: int, prefix: Seq<u8>) -> Option<Option<int>> {
    if prefix.len() == 0 {
        Some(Some(pos))
    } else if !all_ascii(prefix) {
        None
    } else if 0 <= pos && pos + prefix.len() <= bytes.len() {
        if bytes.subrange(pos, pos + prefix.len()) == prefix {
            Some(Some(pos + prefix.len()))
        } else {
            Some(None)
        }
    } else {
        Some(None)
    }
}

/// `char::from_u32`: std documents that it returns the `char` with the given value exactly
/// when the value is a Unicode scalar value, and `None` otherwise.
#[verifier::external_body]
fn char_from_u32(u: u32) -> (r: Option<char>)
    ensures
        r is Some <==> is_scalar(u),
        r matches Some(c) ==> c as u32 == u,
{
    char::from_u32(u)
}

/// The scalar that starts at byte `i` of valid UTF-8 `bytes`, and its encoded width.
fn decode_scalar_at(bytes: &[u8], i: usize) -> (r: (char, usize))
    requires
        valid_utf8(bytes@),
        is_char_boundary(bytes@, i as int),
        i < bytes@.len(),
    ensures
        ({
            let rest = bytes@.subrange(i as int, bytes@.len() as int);
            &&& r.0 == decode_first_scalar(rest) as char
            &&& r.1 as int == length_of_first_scalar(rest)
            &&& i + r.1 <= bytes@.len()
            &&& r.1 >= 1
        }),
{
    let ghost rest = bytes@.subrange(i as int, bytes@.len() as int);
    proof {
        valid_utf8_split(bytes@, i as int);
        assert(valid_utf8(rest));
        assert(rest.len() > 0);
        assert(valid_first_scalar(rest));
    }
    let b0 = bytes[i];
    let (cp, width): (u32, usize) = if b0 <= 0x7f {
        (((b0 & 0x7F) as u32), 1)
    } else if 0xc0 <= b0 && b0 <= 0xdf {
        let b1 = bytes[i + 1];
        ((((b0 & 0x1F) as u32) << 6) | ((b1 & 0x3f) as u32), 2)
    } else if 0xe0 <= b0 && b0 <= 0xef {
        let b1 = bytes[i + 1];
        let b2 = bytes[i + 2];
        ((((b0 & 0x0F) as u32) << 12) | (((b1 & 0x3f) as u32) << 6) | ((b2 & 0x3f) as u32), 3)
    } else {
        let b1 = bytes[i + 1];
        let b2 = bytes[i + 2];
        let b3 = bytes[i + 3];
        (
            (((b0 & 0x07) as u32) << 18) | (((b1 & 0x3f) as u32) << 12) | (((b2 & 0x3f) as u32)
                << 6) | ((b3 & 0x3f) as u32),
            4,
        )
    };
    proof {
        assert(cp == decode_first_scalar(rest));
        assert(width as int == length_of_first_scalar(rest));
        if width == 1 {
            assert((b0 & 0x7F) as u32 <= 0x7F) by (bit_vector);
        } else if width == 2 {
            let b1 = rest[1];
            assert((((b0 & 0x1F) as u32) << 6) | ((b1 & 0x3f) as u32) <= 0x7FF) by (bit_vector);
        } else if width == 3 {
            let b1 = rest[1];
            let b2 = rest[2];
            assert((((b0 & 0x0F) as u32) << 12) | (((b1 & 0x3f) as u32) << 6) | ((b2
                & 0x3f) as u32) <= 0xFFFF) by (bit_vector);
        }
        assert(is_scalar(cp));
    }
    let c = char_from_u32(cp);
    match c {
        Some(ch) => {
            proof {
                vstd::utf8::char_u32_cast(ch, cp);
            }
            (ch, width)
        },
        None => {
            proof {
                assert(false);
            }
            (' ', width)
        },
    }
}

impl<'a> Input for &'a str {
    type Token = char;

    open spec fn spec_len(&self) -> nat {
        self.spec_bytes().len()
    }

    open spec fn spec_read(&self, pos: int) -> Option<(char, int)> {
        str_read(self.spec_bytes(), pos)
    }

    open spec fn spec_prefix_bytes(&self, pos: int, prefix: Seq<u8>) -> Option<Option<int>> {
        str_prefix_bytes(self.spec_bytes(), pos, prefix)
    }

    proof fn lemma_read_bounds(&self, pos: int, prefix: Seq<u8>) {
        let bytes = self.spec_bytes();
        if 0 <= pos < bytes.len() && bytes[pos] >= 128 && is_char_boundary(bytes, pos) {
            vstd::utf8::encode_utf8_valid_utf8(self@);
            valid_utf8_split(bytes, pos);
            let rest = bytes.subrange(pos, bytes.len() as int);
            assert(valid_first_scalar(rest));
        }
    }

    fn len(&self) -> (n: usize) {
        let s: &str = *self;
        s.as_bytes().len()
    }

    fn start_pos(&self) -> (p: usize) {
        0
    }

    fn read_token(&mut self, pos: &mut usize) -> (tok: Option<char>) {
        let s: &str = *self;
        let bytes = s.as_bytes();
        let i = *pos;
        if i >= bytes.len() {
            return None;
        }
        let b = bytes[i];
        if b < 128 {
            *pos = i + 1;
            return Some(b as char);
        }
        if !s.is_char_boundary(i) {
            return None;
        }
        proof {
            vstd::utf8::encode_utf8_valid_utf8(s@);
        }
        let (ch, width) = decode_scalar_at(bytes, i);
        *pos = i + width;
        Some(ch)
    }

    fn try_consume_prefix_bytes(&mut self, pos: &mut usize, prefix: &[u8]) -> (r: Option<bool>) {
        if prefix.len() == 0 {
            return Some(true);
        }
        let mut k: usize = 0;
        while k < prefix.len()
            invariant
                0 <= k <= prefix@.len(),
                forall|j: int| 0 <= j < k ==> #[trigger] prefix@[j] < 128,
            decreases prefix@.len() - k,
        {
            if prefix[k] >= 128 {
                return None;
            }
            k = k + 1;
        }
        assert(all_ascii(prefix@));
        let s: &str = *self;
        let bytes = s.as_bytes();
        let i = *pos;
        if i > bytes.len() || prefix.len() > bytes.len() - i {
            return Some(false);
        }
        let mut j: usize = 0;
        while j < prefix.len()
            invariant
                0 <= j <= prefix@.len(),
                prefix@.len() > 0,
                all_ascii(prefix@),
                i == *old(pos),
                s == *old(self),
                *self == *old(self),
                *pos == *old(pos),
                i + prefix@.len() <= bytes@.len(),
                i + prefix@.len() <= usize::MAX,
                bytes@ == s.spec_bytes(),
                forall|m: int| 0 <= m < j ==> #[trigger] bytes@[i + m] == prefix@[m],
            decreases prefix@.len() - j,
        {
            if bytes[i + j] != prefix[j] {
                proof {
                    assert(bytes@.subrange(i as int, i + prefix@.len())[j as int] != prefix@[j as int]);
                }
                return Some(false);
            }
            j = j + 1;
        }
        proof {
            assert forall|m: int| 0 <= m < prefix@.len() implies #[trigger] bytes@.subrange(
                i as int,
                i + prefix@.len(),
            )[m] == prefix@[m] by {
                assert(bytes@[i + m] == prefix@[m]);
            }
            assert(bytes@.subrange(i as int, i + prefix@.len()) =~= prefix@);
        }
        *pos = i + prefix.len();
        Some(true)
    }
}

impl<'a> SliceableInput for &'a str {
    type Slice = &'a str;

    open spec fn spec_can_slice(&self, start: int, end: int) -> bool {
        &&& 0 <= start <= end <= self.spec_bytes().len()
        &&& is_char_boundary(self.spec_bytes(), start)
        &&& is_char_boundary(self.spec_bytes(), end)
    }

    open spec fn spec_is_slice(&self, start: int, end: int, s: &'a str) -> bool {
        s.spec_bytes() == self.spec_bytes().subrange(start, end)
    }

    fn slice(&self, range: std::ops::Range<usize>) -> (s: &'a str) {
        let whole: &'a str = *self;
        let start = range.start;
        let end = range.end;
        let (_, tail) = whole.split_at(start);
        proof {
            let bytes = whole.spec_bytes();
            vstd::utf8::encode_utf8_valid_utf8(whole@);
            valid_utf8_split(bytes, start as int);
            let tb = tail.spec_bytes();
            assert(tb =~= bytes.subrange(start as int, bytes.len() as int));
            let k = end - start;
            if k < tb.len() {
                is_char_boundary_iff_not_is_continuation_byte(bytes, end as int);
                assert(tb[k as int] == bytes[end as int]);
                is_char_boundary_iff_not_is_continuation_byte(tb, k as int);
            } else {
                is_char_boundary_start_end_of_seq(tb);
            }
        }
        let (mid, _) = tail.split_at(end - start);
        proof {
            assert(mid.spec_bytes() =~= self.spec_bytes().subrange(start as int, end as int));
        }
        mid
    }
}

impl<'a, T> Input for &'a [T] {
    type Token = &'a T;

    open spec fn spec_len(&self) -> nat {
        self@.len()
    }

    open spec fn spec_read(&self, pos: int) -> Option<(&'a T, int)> {
        if 0 <= pos < self@.len() {
            Some((&self@[pos], pos + 1))
        } else {
            None
        }
    }

    open spec fn spec_prefix_bytes(&self, pos: int, prefix: Seq<u8>) -> Option<Option<int>> {
        None
    }

    proof fn lemma_read_bounds(&self, pos: int, prefix: Seq<u8>) {
    }

    fn len(&self) -> (n: usize) {
        let s: &'a [T] = *self;
        s.len()
    }

    fn start_pos(&self) -> (p: usize) {
        0
    }

    fn read_token(&mut self, pos: &mut usize) -> (tok: Option<&'a T>) {
        let s: &'a [T] = *self;
        if *pos < s.len() {
            let token = &s[*pos];
            *pos = *pos + 1;
            Some(token)
        } else {
            None
        }
    }

    fn try_consume_prefix_bytes(&mut self, pos: &mut usize, prefix: &[u8]) -> (r: Option<bool>) {
        None
    }
}

impl<'a, T> SliceableInput for &'a [T] {
    type Slice = &'a [T];

    open spec fn spec_can_slice(&self, start: int, end: int) -> bool {
        0 <= start <= end <= self@.len()
    }

    open spec fn spec_is_slice(&self, start: int, end: int, s: &'a [T]) -> bool {
        s@ == self@.subrange(start, end)
    }

    fn slice(&self, range: std::ops::Range<usize>) -> (s: &'a [T]) {
        let whole: &'a [T] = *self;
        &whole[range.start..range.end]
    }
}

} // verus!

verus! {

/// A cursor over an [`Input`].
pub struct InputStream<Inp> {
    /// The input.
    pub input: Inp,
    /// The current position.
    pub pos: usize,
}

impl<Inp: Input> InputStream<Inp> {
    /// A cursor at the start of `input`.
    pub fn new(input: Inp) -> (s: Self)
        ensures
            s.input == input,
            s.pos == 0,
    {
        let pos = input.start_pos();
        InputStream { input, pos }
    }

    /// Read the next token, advancing on success.
    pub fn next(&mut self) -> (tok: Option<Inp::Token>)
        ensures
            final(self).input == old(self).input,
            match old(self).input.spec_read(old(self).pos as int) {
                Some((t, next)) => tok == Some(t) && final(self).pos as int == next,
                None => tok is None && final(self).pos == old(self).pos,
            },
    {
        self.input.read_token(&mut self.pos)
    }

    /// The current position.
    pub fn get_pos(&self) -> (p: usize)
        ensures
            p == self.pos,
    {
        self.pos
    }

    /// Move to `pos`.
    pub fn set_pos(&mut self, pos: usize)
        ensures
            final(self).input == old(self).input,
            final(self).pos == pos,
    {
        self.pos = pos;
    }

    /// The byte-prefix fast path of the input at the current position.
    pub fn try_consume_prefix_bytes(&mut self, prefix: &[u8]) -> (r: Option<bool>)
        ensures
            final(self).input == old(self).input,
            match old(self).input.spec_prefix_bytes(old(self).pos as int, prefix@) {
                None => r is None && final(self).pos == old(self).pos,
                Some(None) => r == Some(false) && final(self).pos == old(self).pos,
                Some(Some(next)) => r == Some(true) && final(self).pos as int == next,
            },
    {
        self.input.try_consume_prefix_bytes(&mut self.pos, prefix)
    }
}

impl<Inp: SliceableInput> InputStream<Inp> {
    /// The input slice covering `range`.
    pub fn slice(&self, range: std::ops::Range<usize>) -> (s: Inp::Slice)
        requires
            self.input.spec_can_slice(range.start as int, range.end as int),
        ensures
            self.input.spec_is_slice(range.start as int, range.end as int, s),
    {
        self.input.slice(range)
    }
}

/// Whether `bytes` holds `prefix` at `pos`.
pub open spec fn byte_prefix_at(bytes: Seq<u8>, pos: int, prefix: Seq<u8>) -> bool {
    0 <= pos && pos + prefix.len() <= bytes.len() && bytes.subrange(pos, pos + prefix.len())
        == prefix
}

impl<'a> InputStream<&'a [u8]> {
    /// Compare the bytes at the current position with `prefix` in one step; on a match,
    /// advance past them.
    pub fn try_consume_byte_prefix(&mut self, prefix: &[u8]) -> (b: bool)
        ensures
            final(self).input == old(self).input,
            b == (prefix@.len() == 0 || byte_prefix_at(old(self).input@, old(self).pos as int, prefix@)),
            final(self).pos == (if b && prefix@.len() > 0 {
                old(self).pos + prefix@.len()
            } else {
                old(self).pos as int
            }),
    {
        if prefix.len() == 0 {
            return true;
        }
        let i = self.pos;
        let buf: &'a [u8] = self.input;
        if i > buf.len() || prefix.len() > buf.len() - i {
            return false;
        }
        assert(i + prefix@.len() <= buf@.len());
        let mut j: usize = 0;
        while j < prefix.len()
            invariant
                0 <= j <= prefix@.len(),
                i + prefix@.len() <= buf@.len(),
                i + prefix@.len() <= usize::MAX,
                i == old(self).pos,
                prefix@.len() > 0,
                *self == *old(self),
                buf == self.input,
                forall|m: int| 0 <= m < j ==> #[trigger] buf@[i + m] == prefix@[m],
            decreases prefix@.len() - j,
        {
            if buf[i + j] != prefix[j] {
                proof {
                    assert(buf@.subrange(i as int, i + prefix@.len())[j as int] != prefix@[j as int]);
                }
                return false;
            }
            j = j + 1;
        }
        proof {
            assert forall|m: int| 0 <= m < prefix@.len() implies #[trigger] buf@.subrange(
                i as int,
                i + prefix@.len(),
            )[m] == prefix@[m] by {
                assert(buf@[i + m] == prefix@[m]);
            }
            assert(buf@.subrange(i as int, i + prefix@.len()) =~= prefix@);
        }
        self.pos = i + prefix.len();
        true
    }
}

} // verus!
