//! A positioned cursor over a UTF-8 text, with the lexical primitives of XML.

use vstd::prelude::*;
use vstd::string::StringSliceAdditionalSpecFns;
use vstd::utf8::*;
use crate::cursor::{
    chars_in_line_before,
    digit_bytes,
    digit_value,
    hex_digit_bytes,
    name_chars,
    newlines_before,
    numeral_value,
    text_pos_at,
    Cursor,
    Referent,
};
use crate::encoding::{
    byte_len,
    char_at,
    char_width,
    is_boundary,
    lemma_ascii_boundary,
    lemma_boundary_char_boundary,
    lemma_char_at,
    lemma_match_boundary,
    tail,
};
use crate::error::{StreamError, StreamFault, TextPos};
use crate::strspan::{Slice, StrSpan};
use crate::xmlchar::{is_digit_byte, is_hex_digit_byte, is_xml_char, XmlByteExt, XmlCharExt};
use core::ops::Range;

verus! {

/// A streaming XML parsing interface.
#[derive(Clone, Copy, PartialEq, Eq, Hash, Debug)]
pub struct Stream<'a> {
    pos: usize,
    end: usize,
    span: StrSpan<'a>,
}

/// The stream as a cursor over bytes: another name of `Stream`.
pub type ByteStream<'a> = Stream<'a>;

impl<'a> View for Stream<'a> {
    type V = Cursor;

    closed spec fn view(&self) -> Cursor {
        Cursor {
            bytes: self.span@.bytes,
            origin: self.span@.start,
            pos: self.pos as int,
            end: self.end as int,
        }
    }
}

/// The text that `bytes` encode: `core::str::from_utf8`, which accepts
/// valid UTF-8 and hands back the same bytes as a string slice.
#[verifier::external_body]
fn str_from_utf8(bytes: &'static [u8]) -> (text: Option<&'static str>)
    ensures
        valid_utf8(bytes@) ==> text is Some,
        text is Some ==> text->0.spec_bytes() == bytes@,
{
    core::str::from_utf8(bytes).ok()
}

/// The number of bytes in the UTF-8 encoding of `c`.
fn len_utf8(c: char) -> (n: usize)
    ensures
        n == char_width(c),
{
    let u: u32 = c as u32;
    if u < 0x80 {
        1
    } else if u < 0x800 {
        2
    } else if u < 0x10000 {
        3
    } else {
        4
    }
}

impl<'a> From<&'a str> for Stream<'a> {
    #[inline]
    fn from(text: &'a str) -> (r: Self)
        ensures
            r.wf(),
            r@ == (Cursor {
                bytes: text.spec_bytes(),
                origin: 0,
                pos: 0,
                end: text.spec_bytes().len() as int,
            }),
    {
        proof {
            encode_utf8_valid_utf8(text@);
        }
        Stream { pos: 0, end: byte_len(text), span: StrSpan::from(text) }
    }
}

impl<'a> vstd::std_specs::convert::FromSpecImpl<&'a str> for Stream<'a> {
    open spec fn obeys_from_spec() -> bool {
        true
    }

    open spec fn from_spec(text: &'a str) -> Self {
        Stream::over(StrSpan::of_text(text))
    }
}

impl<'a> From<StrSpan<'a>> for Stream<'a> {
    #[inline]
    fn from(span: StrSpan<'a>) -> (r: Self)
        ensures
            r.wf(),
            r@ == (Cursor {
                bytes: span@.bytes,
                origin: span@.start,
                pos: 0,
                end: span@.bytes.len() as int,
            }),
    {
        proof {
            span.lemma_valid();
        }
        Stream { pos: 0, end: span.len(), span }
    }
}

impl<'a> vstd::std_specs::convert::FromSpecImpl<StrSpan<'a>> for Stream<'a> {
    open spec fn obeys_from_spec() -> bool {
        true
    }

    open spec fn from_spec(span: StrSpan<'a>) -> Self {
        Stream::over(span)
    }
}

impl<'a> Stream<'a> {
    /// The stream is within its text, on character boundaries.
    pub open spec fn wf(&self) -> bool {
        self@.wf()
    }

    /// The stream over the whole of `span`, at its start.
    pub closed spec fn over(span: StrSpan<'a>) -> Self {
        Stream { pos: 0, end: span@.bytes.len() as usize, span }
    }

    /// The same stream at position `p`.
    pub closed spec fn at(&self, p: int) -> Self {
        Stream { pos: p as usize, end: self.end, span: self.span }
    }

    /// What `at` means: the position is moved and nothing else.
    pub proof fn lemma_at(&self, p: int)
        requires
            0 <= p <= usize::MAX,
        ensures
            self.at(p)@ == self@.at(p),
            self.at(self@.pos) == *self,
    {
    }

    /// Creates a new stream from a specified `text` substring.
    #[inline]
    pub fn from_substr(text: &'a str, fragment: Range<usize>) -> (r: Self)
        requires
            fragment.start <= fragment.end <= text.spec_bytes().len(),
            is_boundary(text.spec_bytes(), fragment.start as int),
            is_boundary(text.spec_bytes(), fragment.end as int),
        ensures
            r.wf(),
            r@ == (Cursor {
                bytes: text.spec_bytes(),
                origin: 0,
                pos: fragment.start as int,
                end: fragment.end as int,
            }),
    {
        proof {
            encode_utf8_valid_utf8(text@);
        }
        Stream { pos: fragment.start, end: fragment.end, span: StrSpan::from(text) }
    }

    /// Returns an underling string span.
    #[inline]
    pub fn span(&self) -> (r: StrSpan<'a>)
        ensures
            r@ == (Slice { start: self@.origin, bytes: self@.bytes }),
    {
        self.span
    }

    /// Returns current position.
    #[inline]
    pub fn pos(&self) -> (r: usize)
        ensures
            r == self@.pos,
    {
        self.pos
    }

    /// Sets current position equal to the end.
    ///
    /// Used to indicate end of parsing on error.
    #[inline]
    pub fn jump_to_end(&mut self)
        requires
            old(self).wf(),
        ensures
            final(self).wf(),
            final(self)@ == old(self)@.at(old(self)@.end),
    {
        self.pos = self.end;
    }

    /// Checks if the stream is reached the end.
    ///
    /// Accessing stream after reaching end via safe methods will produce
    /// an `UnexpectedEndOfStream` error.
    #[inline]
    pub fn at_end(&self) -> (r: bool)
        ensures
            r == self@.at_end(),
    {
        self.pos >= self.end
    }

    /// Returns a byte from a current stream position.
    ///
    /// # Errors
    ///
    /// - `UnexpectedEndOfStream`
    #[inline]
    pub fn curr_byte(&self) -> (r: Result<u8, StreamError>)
        requires
            self.wf(),
        ensures
            match self@.curr_byte() {
                Ok(b) => r == Ok::<u8, StreamError>(b),
                Err(e) => r is Err && r->Err_0@ == e,
            },
    {
        if self.at_end() {
            return Err(StreamError::UnexpectedEndOfStream);
        }
        Ok(self.curr_byte_unchecked())
    }

    /// Returns a byte from a current stream position, which must be before
    /// the end.
    #[inline]
    pub fn curr_byte_unchecked(&self) -> (r: u8)
        requires
            self.wf(),
            !self@.at_end(),
        ensures
            r == self@.curr(),
    {
        self.span.as_str().as_bytes()[self.pos]
    }

    /// Returns a next byte from a current stream position.
    ///
    /// # Errors
    ///
    /// - `UnexpectedEndOfStream`
    #[inline]
    pub fn next_byte(&self) -> (r: Result<u8, StreamError>)
        requires
            self.wf(),
        ensures
            match self@.next_byte() {
                Ok(b) => r == Ok::<u8, StreamError>(b),
                Err(e) => r is Err && r->Err_0@ == e,
            },
    {
        if self.end - self.pos <= 1 {
            return Err(StreamError::UnexpectedEndOfStream);
        }
        Ok(self.span.as_str().as_bytes()[self.pos + 1])
    }

    /// Advances by `n` bytes, to a position that is not behind the end and
    /// at which a character starts.
    #[inline]
    pub fn advance(&mut self, n: usize)
        requires
            old(self).wf(),
            old(self)@.pos + n <= old(self)@.end,
            is_boundary(old(self)@.bytes, old(self)@.pos + n),
        ensures
            final(self).wf(),
            final(self)@ == old(self)@.advance(n as int),
            *final(self) == old(self).at(old(self)@.pos + n),
    {
        self.pos += n;
    }

    /// Checks that the stream starts with a selected text.
    ///
    /// We are using `&[u8]` instead of `&str` for performance reasons.
    #[inline]
    pub fn starts_with(&self, text: &[u8]) -> (r: bool)
        requires
            self.wf(),
        ensures
            r == self@.starts_with(text@),
    {
        let bytes = self.span.as_str().as_bytes();
        let n = text.len();
        if n > self.end - self.pos {
            return false;
        }
        let mut i: usize = 0;
        while i < n
            invariant
                self.wf(),
                bytes@ == self@.bytes,
                n == text@.len(),
                n <= self.end - self.pos,
                i <= n,
                forall|j: int| 0 <= j < i ==> bytes@[self.pos + j] == text@[j],
            decreases n - i,
        {
            if bytes[self.pos + i] != text[i] {
                proof {
                    let sub = self@.bytes.subrange(self@.pos, self@.pos + n);
                    assert(sub[i as int] != text@[i as int]);
                }
                return false;
            }
            i += 1;
        }
        assert(self@.bytes.subrange(self@.pos, self@.pos + n) =~= text@);
        true
    }

    /// Consumes the current byte if it's equal to the provided byte.
    ///
    /// The stream stays on character boundaries: `c` is an ASCII byte, which
    /// is a character of its own, or `c` does not stand at the position. A
    /// byte of 128 or more that stands there starts a longer character, and
    /// to consume it alone would leave the stream inside that character.
    ///
    /// # Errors
    ///
    /// - `InvalidChar`
    /// - `UnexpectedEndOfStream`
    pub fn consume_byte(&mut self, c: u8) -> (r: Result<(), StreamError>)
        requires
            old(self).wf(),
            c < 0x80 || old(self)@.curr_byte() != Ok::<u8, StreamFault>(c),
        ensures
            final(self).wf(),
            final(self)@.follows(old(self)@),
            match old(self)@.consume_byte(c) {
                Ok(cur) => r is Ok && final(self)@ == cur,
                Err(e) => r is Err && r->Err_0@ == e && final(self)@ == old(self)@,
            },
    {
        let curr = self.curr_byte()?;
        if curr != c {
            return Err(StreamError::InvalidChar(curr, c, self.gen_text_pos()));
        }
        proof {
            lemma_ascii_boundary(self@.bytes, self@.pos);
        }
        self.advance(1);
        Ok(())
    }

    /// Tries to consume the current byte if it's equal to the provided byte.
    ///
    /// Unlike `consume_byte()` will not return any errors.
    ///
    /// As for `consume_byte()`, `c` is an ASCII byte or does not stand at
    /// the position, so that the stream stays on character boundaries.
    pub fn try_consume_byte(&mut self, c: u8) -> (r: bool)
        requires
            old(self).wf(),
            c < 0x80 || old(self)@.curr_byte() != Ok::<u8, StreamFault>(c),
        ensures
            final(self).wf(),
            final(self)@.follows(old(self)@),
            (final(self)@, r) == old(self)@.try_consume_byte(c),
    {
        match self.curr_byte() {
            Ok(b) => {
                if b == c {
                    proof {
                        lemma_ascii_boundary(self@.bytes, self@.pos);
                    }
                    self.advance(1);
                    true
                } else {
                    false
                }
            },
            _ => false,
        }
    }

    /// Skips selected string, which is valid UTF-8.
    ///
    /// # Errors
    ///
    /// - `InvalidString`
    pub fn skip_string(&mut self, text: &'static [u8]) -> (r: Result<(), StreamError>)
        requires
            old(self).wf(),
            valid_utf8(text@),
        ensures
            final(self).wf(),
            final(self)@.follows(old(self)@),
            match old(self)@.skip_string(text@) {
                Ok(cur) => r is Ok && final(self)@ == cur,
                Err(e) => r is Err && r->Err_0@ == e && final(self)@ == old(self)@,
            },
    {
        match str_from_utf8(text) {
            Some(expected) => self.skip_text(expected),
            None => vstd::pervasive::unreached(),
        }
    }

    /// Skips `text`, or fails with `InvalidString` where something else stands.
    pub(crate) fn skip_text(&mut self, text: &'static str) -> (r: Result<(), StreamError>)
        requires
            old(self).wf(),
        ensures
            final(self).wf(),
            final(self)@.follows(old(self)@),
            match old(self)@.skip_string(text.spec_bytes()) {
                Ok(cur) => r is Ok && final(self)@ == cur,
                Err(e) => r is Err && r->Err_0@ == e && final(self)@ == old(self)@,
            },
    {
        let bytes = text.as_bytes();
        proof {
            encode_utf8_valid_utf8(text@);
            encode_utf8_decode_utf8(text@);
        }
        if !self.starts_with(bytes) {
            let pos = self.gen_text_pos();
            return Err(StreamError::InvalidString(text, pos));
        }
        proof {
            lemma_match_boundary(self@.bytes, self@.pos, bytes@);
        }
        self.advance(bytes.len());
        Ok(())
    }

    /// Slices data from `pos` to the current position. A character starts at `pos`.
    #[inline]
    pub fn slice_back(&self, pos: usize) -> (r: StrSpan<'a>)
        requires
            self.wf(),
            pos <= self@.pos,
            is_boundary(self@.bytes, pos as int),
        ensures
            r@ == self@.slice_back(pos as int),
    {
        self.span.slice_region(pos, self.pos)
    }

    /// Slices data from the current position to the end.
    #[inline]
    pub fn slice_tail(&self) -> (r: StrSpan<'a>)
        requires
            self.wf(),
        ensures
            r@ == self@.slice_tail(),
    {
        self.span.slice_region(self.pos, self.end)
    }

    /// Calculates a current absolute position.
    ///
    /// This operation is very expensive. Use only for errors.
    #[inline(never)]
    pub fn gen_text_pos(&self) -> (r: TextPos)
        requires
            self.wf(),
        ensures
            r == self@.text_pos(),
    {
        let text = self.span.as_str();
        let end = self.pos;
        let row = Self::calc_curr_row(text, end);
        let col = Self::calc_curr_col(text, end);
        TextPos::new(row, col)
    }

    /// Calculates an absolute position at `pos`, or at the end of the text
    /// where `pos` lies behind it.
    ///
    /// This operation is very expensive. Use only for errors.
    #[inline(never)]
    pub fn gen_text_pos_from(&self, pos: usize) -> (r: TextPos)
        requires
            self.wf(),
        ensures
            r == self@.text_pos_from(pos as int),
    {
        let text = self.span.as_str();
        let len = byte_len(text);
        let end = if pos <= len {
            pos
        } else {
            len
        };
        let row = Self::calc_curr_row(text, end);
        let col = Self::calc_curr_col(text, end);
        TextPos::new(row, col)
    }

    fn calc_curr_row(text: &str, end: usize) -> (row: u32)
        requires
            end <= text.spec_bytes().len(),
        ensures
            row == text_pos_at(text.spec_bytes(), end as int).row,
    {
        let bytes = text.as_bytes();
        let mut row: u32 = 1;
        let mut i: usize = 0;
        while i < end
            invariant
                bytes@ == text.spec_bytes(),
                i <= end <= bytes@.len(),
                row as int == (1 + newlines_before(bytes@, i as int)) % 0x1_0000_0000,
            decreases end - i,
        {
            if bytes[i] == 0x0A {
                row = row.wrapping_add(1);
            }
            i += 1;
        }
        row
    }

    fn calc_curr_col(text: &str, end: usize) -> (col: u32)
        requires
            end <= text.spec_bytes().len(),
        ensures
            col == text_pos_at(text.spec_bytes(), end as int).col,
    {
        let bytes = text.as_bytes();
        let mut col: u32 = 1;
        let mut i: usize = end;
        let ghost mut count: nat = 0;
        while i > 0
            invariant
                bytes@ == text.spec_bytes(),
                i <= end <= bytes@.len(),
                chars_in_line_before(bytes@, end as int) == chars_in_line_before(bytes@, i as int)
                    + count,
                col as int == (1 + count) % 0x1_0000_0000,
            ensures
                chars_in_line_before(bytes@, end as int) == count,
                col as int == (1 + count) % 0x1_0000_0000,
            decreases i,
        {
            let b = bytes[i - 1];
            if b == 0x0A {
                break;
            }
            // Bytes of the form 10xxxxxx continue a character.
            if !(0x80 <= b && b <= 0xBF) {
                col = col.wrapping_add(1);
                proof {
                    count = count + 1;
                }
            }
            i -= 1;
        }
        col
    }
}

impl<'a> Stream<'a> {
    /// Skipping bytes with `f` from this stream may get as far as `p`: `f`
    /// may accept every byte before `p`.
    pub open spec fn bytes_accepted<F: Fn(&Stream, u8) -> bool>(&self, f: F, p: int) -> bool {
        &&& self@.pos <= p <= self@.end
        &&& forall|i: int|
            self@.pos <= i < p ==> call_ensures(f, (&#[trigger] self.at(i), self@.bytes[i]), true)
    }

    /// Skipping bytes with `f` from this stream may stop at `p`: it may get
    /// there, and `f` may refuse the byte at `p`, or `p` is the end.
    pub open spec fn bytes_stop<F: Fn(&Stream, u8) -> bool>(&self, f: F, p: int) -> bool {
        &&& self.bytes_accepted(f, p)
        &&& p < self@.end ==> call_ensures(f, (&self.at(p), self@.bytes[p]), false)
    }

    /// Skipping characters with `f` from this stream may get as far as `p`:
    /// every character before `p` is an XML character that `f` may accept.
    pub closed spec fn chars_accepted<F: Fn(&Stream, char) -> bool>(&self, f: F, p: int) -> bool
        decreases p - self@.pos,
    {
        if self.pos >= p {
            self.pos == p
        } else {
            let c = self@.char();
            &&& p <= self.end
            &&& self.pos + char_width(c) <= p
            &&& is_xml_char(c)
            &&& call_ensures(f, (self, c), true)
            &&& self.at(self.pos + char_width(c)).chars_accepted(f, p)
        }
    }

    /// Where skipping characters may get to, a character starts.
    pub proof fn lemma_chars_accepted<F: Fn(&Stream, char) -> bool>(&self, f: F, p: int)
        requires
            self.wf(),
            self.chars_accepted(f, p),
        ensures
            self@.pos <= p <= self@.end,
            self.at(p).wf(),
            self.at(p)@ == self@.at(p),
        decreases p - self@.pos,
    {
        if self.pos < p {
            lemma_char_at(self@.bytes, self@.pos);
            let next = self.at(self.pos + char_width(self@.char()));
            next.lemma_chars_accepted(f, p);
            assert(next.at(p) == self.at(p));
        }
    }

    /// Skipping characters gets one character further where `f` may accept it.
    pub proof fn lemma_chars_accepted_more<F: Fn(&Stream, char) -> bool>(&self, f: F, p: int)
        requires
            self.wf(),
            self.chars_accepted(f, p),
            p < self@.end,
            is_xml_char(char_at(self@.bytes, p)),
            call_ensures(f, (&self.at(p), char_at(self@.bytes, p)), true),
        ensures
            self.chars_accepted(f, p + char_width(char_at(self@.bytes, p))),
            p + char_width(char_at(self@.bytes, p)) <= self@.end,
            is_boundary(self@.bytes, p + char_width(char_at(self@.bytes, p))),
        decreases p - self@.pos,
    {
        self.lemma_chars_accepted(f, p);
        lemma_char_at(self@.bytes, p);
        let w = char_width(char_at(self@.bytes, p));
        if p + w > self@.end {
            // The end is a boundary, and inside a character there is none.
            assert(is_continuation_byte(self@.bytes[self@.end]));
        }
        if self.pos < p {
            lemma_char_at(self@.bytes, self@.pos);
            let next = self.at(self.pos + char_width(self@.char()));
            assert(forall|q: int| next.at(q) == self.at(q));
            next.lemma_chars_accepted_more(f, p);
        } else {
            let next = self.at(p + w);
            assert(next.chars_accepted(f, p + w));
        }
    }

    /// A function of bytes that `f` computes, applied from this stream on,
    /// stops where skipping with `f` may stop.
    pub proof fn lemma_skip_bytes<F: Fn(&Stream, u8) -> bool>(
        &self,
        f: F,
        p: int,
        pred: spec_fn(u8) -> bool,
    )
        requires
            self.bytes_stop(f, p),
            forall|t: &Stream, b: u8, r: bool| call_ensures(f, (t, b), r) ==> r == pred(b),
        ensures
            self@.skip_bytes_while(pred) == self@.at(p),
        decreases p - self@.pos,
    {
        if self.pos < p {
            let next = self.at(self.pos + 1);
            assert(self.at(self.pos as int) == *self);
            assert(call_ensures(f, (&self.at(self.pos as int), self@.bytes[self.pos as int]), true));
            assert(forall|q: int| next.at(q) == self.at(q));
            assert(next.bytes_accepted(f, p)) by {
                assert forall|i: int| next@.pos <= i < p implies call_ensures(
                    f,
                    (&#[trigger] next.at(i), next@.bytes[i]),
                    true,
                ) by {
                    assert(next.at(i) == self.at(i));
                }
            }
            next.lemma_skip_bytes(f, p, pred);
        } else {
            assert(self.at(p) == *self);
        }
    }

    /// Where `f` refuses ASCII bytes only, skipping stops at a boundary.
    pub proof fn lemma_stop_at_ascii<F: Fn(&Stream, u8) -> bool>(&self, f: F, p: int)
        requires
            self.wf(),
            self.bytes_stop(f, p),
            forall|t: &Stream, b: u8| call_ensures(f, (t, b), false) ==> b < 0x80,
        ensures
            is_boundary(self@.bytes, p),
    {
        if p < self@.end {
            lemma_ascii_boundary(self@.bytes, p);
        }
    }

    /// Where `f` accepts ASCII bytes only, skipping stops at a boundary.
    pub proof fn lemma_accept_ascii<F: Fn(&Stream, u8) -> bool>(&self, f: F, p: int)
        requires
            self.wf(),
            self.bytes_accepted(f, p),
            forall|t: &Stream, b: u8| call_ensures(f, (t, b), true) ==> b < 0x80,
        ensures
            is_boundary(self@.bytes, p),
    {
        if self@.pos < p {
            assert(call_ensures(f, (&self.at(p - 1), self@.bytes[p - 1]), true));
            lemma_ascii_boundary(self@.bytes, p - 1);
        }
    }

    /// A function of stream and character that `f` computes, applied from
    /// this stream on, stops where skipping with `f` stopped.
    pub proof fn lemma_skip_chars<F: Fn(&Stream, char) -> bool>(
        &self,
        f: F,
        p: int,
        pred: spec_fn(Cursor, char) -> bool,
    )
        requires
            self.wf(),
            self.chars_accepted(f, p),
            forall|t: &Stream, c: char, r: bool|
                t.wf() && call_ensures(f, (t, c), r) ==> r == pred(t@, c),
            p == self@.end || !crate::cursor::xml_chars(pred)(self@.at(p), char_at(self@.bytes, p)),
        ensures
            self@.skip_chars_stop(pred) == self@.at(p),
        decreases p - self@.pos,
    {
        if self.pos < p {
            lemma_char_at(self@.bytes, self@.pos);
            let next = self.at(self.pos + char_width(self@.char()));
            assert(forall|q: int| next.at(q) == self.at(q));
            self.lemma_chars_accepted(f, p);
            next.lemma_chars_accepted(f, p);
            next.lemma_skip_chars(f, p, pred);
        } else {
            assert(self@.at(p) == self@);
        }
    }

    /// The character at the position.
    fn curr_char(&self) -> (c: char)
        requires
            self.wf(),
            !self@.at_end(),
        ensures
            c == self@.char(),
            self@.pos + char_width(c) <= self@.end,
            is_boundary(self@.bytes, self@.pos + char_width(c)),
    {
        self.char_from(self.pos)
    }

    /// The character that starts at `p`.
    fn char_from(&self, p: usize) -> (c: char)
        requires
            self.wf(),
            p < self@.end,
            is_boundary(self@.bytes, p as int),
        ensures
            c == char_at(self@.bytes, p as int),
            p + char_width(c) <= self@.end,
            is_boundary(self@.bytes, p + char_width(c)),
    {
        let text = self.span.as_str();
        proof {
            lemma_boundary_char_boundary(self@.bytes, p as int);
            lemma_char_at(self@.bytes, p as int);
        }
        let (_, rest) = text.split_at(p);
        let mut chars = rest.chars();
        let first = chars.next();
        proof {
            broadcast use vstd::string::group_string_axioms;

            assert(rest.spec_bytes() =~= tail(self@.bytes, p as int));
            encode_utf8_decode_utf8(rest@);
            assert(rest@ == decode_utf8(tail(self@.bytes, p as int)));
            assert(rest@.len() > 0);
            let w = char_width(char_at(self@.bytes, p as int));
            if p + w > self@.end {
                assert(is_continuation_byte(self@.bytes[self@.end]));
            }
        }
        match first {
            Some(c) => c,
            None => vstd::pervasive::unreached(),
        }
    }

    /// Consumes bytes by the predicate and returns them.
    ///
    /// The result can be empty. The predicate may be called wherever the
    /// skipping may get to, and where it may stop a character starts.
    #[inline]
    pub fn consume_bytes<F>(&mut self, f: F) -> (r: StrSpan<'a>) where F: Fn(&Stream, u8) -> bool
        requires
            old(self).wf(),
            forall|p: int|
                #[trigger] old(self).bytes_accepted(f, p) && p < old(self)@.end ==> call_requires(
                    f,
                    (&old(self).at(p), old(self)@.bytes[p]),
                ),
            forall|p: int| #[trigger]
                old(self).bytes_stop(f, p) ==> is_boundary(old(self)@.bytes, p),
        ensures
            final(self).wf(),
            old(self).bytes_stop(f, final(self)@.pos),
            final(self)@ == old(self)@.at(final(self)@.pos),
            r@ == final(self)@.slice_back(old(self)@.pos),
    {
        let start = self.pos;
        self.skip_bytes(f);
        self.slice_back(start)
    }

    /// Skips bytes by the predicate.
    ///
    /// The predicate may be called wherever the skipping may get to, and
    /// where it may stop a character starts.
    pub fn skip_bytes<F>(&mut self, f: F) where F: Fn(&Stream, u8) -> bool
        requires
            old(self).wf(),
            forall|p: int|
                #[trigger] old(self).bytes_accepted(f, p) && p < old(self)@.end ==> call_requires(
                    f,
                    (&old(self).at(p), old(self)@.bytes[p]),
                ),
            forall|p: int| #[trigger]
                old(self).bytes_stop(f, p) ==> is_boundary(old(self)@.bytes, p),
        ensures
            final(self).wf(),
            old(self).bytes_stop(f, final(self)@.pos),
            final(self)@ == old(self)@.at(final(self)@.pos),
    {
        let bytes = self.span.as_str().as_bytes();
        loop
            invariant
                old(self).wf(),
                bytes@ == old(self)@.bytes,
                *self == old(self).at(self.pos as int),
                old(self).bytes_accepted(f, self.pos as int),
                forall|p: int|
                    #[trigger] old(self).bytes_accepted(f, p) && p < old(self)@.end
                        ==> call_requires(f, (&old(self).at(p), old(self)@.bytes[p])),
            ensures
                *self == old(self).at(self.pos as int),
                old(self).bytes_stop(f, self.pos as int),
            decreases self.end - self.pos,
        {
            if self.pos >= self.end {
                break;
            }
            let b = bytes[self.pos];
            if !f(&*self, b) {
                break;
            }
            proof {
                let ghost q = self.pos as int;
                assert forall|i: int| old(self)@.pos <= i < q + 1 implies call_ensures(
                    f,
                    (&#[trigger] old(self).at(i), old(self)@.bytes[i]),
                    true,
                ) by {
                    if i == q {
                        assert(old(self).at(i) == *self);
                    }
                }
            }
            self.pos += 1;
        }
    }

    /// Consumes chars by the predicate and returns them.
    ///
    /// The result can be empty. The predicate may be called wherever the
    /// skipping may get to.
    #[inline]
    pub fn consume_chars<F>(&mut self, f: F) -> (r: Result<StrSpan<'a>, StreamError>) where
        F: Fn(&Stream, char) -> bool,
        requires
            old(self).wf(),
            forall|p: int|
                #[trigger] old(self).chars_accepted(f, p) && p < old(self)@.end ==> call_requires(
                    f,
                    (&old(self).at(p), char_at(old(self)@.bytes, p)),
                ),
        ensures
            final(self).wf(),
            old(self).chars_accepted(f, final(self)@.pos),
            final(self)@ == old(self)@.at(final(self)@.pos),
            match r {
                Ok(span) => {
                    &&& span@ == final(self)@.slice_back(old(self)@.pos)
                    &&& (final(self)@.at_end() || (is_xml_char(final(self)@.char())
                        && call_ensures(f, (final(self), final(self)@.char()), false)))
                },
                Err(e) => {
                    &&& !final(self)@.at_end()
                    &&& !is_xml_char(final(self)@.char())
                    &&& e@ == StreamFault::NonXmlChar(final(self)@.char(), final(self)@.text_pos())
                },
            },
    {
        let start = self.pos;
        self.skip_chars(f)?;
        Ok(self.slice_back(start))
    }

    /// Skips chars by the predicate.
    ///
    /// The predicate may be called wherever the skipping may get to.
    #[inline]
    pub fn skip_chars<F>(&mut self, f: F) -> (r: Result<(), StreamError>) where
        F: Fn(&Stream, char) -> bool,
        requires
            old(self).wf(),
            forall|p: int|
                #[trigger] old(self).chars_accepted(f, p) && p < old(self)@.end ==> call_requires(
                    f,
                    (&old(self).at(p), char_at(old(self)@.bytes, p)),
                ),
        ensures
            final(self).wf(),
            old(self).chars_accepted(f, final(self)@.pos),
            final(self)@ == old(self)@.at(final(self)@.pos),
            match r {
                Ok(_) => final(self)@.at_end() || (is_xml_char(final(self)@.char()) && call_ensures(
                    f,
                    (final(self), final(self)@.char()),
                    false,
                )),
                Err(e) => {
                    &&& !final(self)@.at_end()
                    &&& !is_xml_char(final(self)@.char())
                    &&& e@ == StreamFault::NonXmlChar(final(self)@.char(), final(self)@.text_pos())
                },
            },
    {
        loop
            invariant
                old(self).wf(),
                self.wf(),
                *self == old(self).at(self.pos as int),
                old(self).chars_accepted(f, self.pos as int),
                forall|p: int|
                    #[trigger] old(self).chars_accepted(f, p) && p < old(self)@.end
                        ==> call_requires(f, (&old(self).at(p), char_at(old(self)@.bytes, p))),
            ensures
                self.wf(),
                *self == old(self).at(self.pos as int),
                old(self).chars_accepted(f, self.pos as int),
                self@.at_end() || (is_xml_char(self@.char()) && call_ensures(
                    f,
                    (&*self, self@.char()),
                    false,
                )),
            decreases self.end - self.pos,
        {
            if self.pos >= self.end {
                break;
            }
            let c = self.curr_char();
            if !c.is_xml_char() {
                return Err(StreamError::NonXmlChar(c, self.gen_text_pos()));
            } else if f(&*self, c) {
                proof {
                    old(self).lemma_chars_accepted_more(f, self.pos as int);
                }
                self.pos += len_utf8(c);
            } else {
                break;
            }
        }
        Ok(())
    }
}

/// Representation of the [Reference](https://www.w3.org/TR/xml/#NT-Reference) value.
#[derive(Clone, Copy, PartialEq, Eq, Hash, Debug)]
pub enum Reference<'a> {
    /// An entity reference.
    ///
    /// <https://www.w3.org/TR/xml/#NT-EntityRef>
    Entity(&'a str),
    /// A character reference.
    ///
    /// <https://www.w3.org/TR/xml/#NT-CharRef>
    Char(char),
}

impl<'a> View for Reference<'a> {
    type V = Referent;

    open spec fn view(&self) -> Referent {
        match *self {
            Reference::Entity(name) => Referent::Entity(name@),
            Reference::Char(c) => Referent::Char(c),
        }
    }
}

/// The character with the scalar value `n`, if there is one:
/// `char::from_u32`, which returns `None` exactly for the surrogates and for
/// what lies above U+10FFFF.
#[verifier::external_body]
fn char_from_u32(n: u32) -> (c: Option<char>)
    ensures
        c == if is_scalar(n) {
            Some(n as char)
        } else {
            None::<char>
        },
{
    char::from_u32(n)
}

/// Checks that two texts are the same.
pub(crate) fn same_text(a: &str, b: &str) -> (r: bool)
    ensures
        r == (a@ == b@),
        r == (a.spec_bytes() == b.spec_bytes()),
{
    let x = a.as_bytes();
    let y = b.as_bytes();
    proof {
        encode_utf8_decode_utf8(a@);
        encode_utf8_decode_utf8(b@);
    }
    if x.len() != y.len() {
        return false;
    }
    let mut i: usize = 0;
    while i < x.len()
        invariant
            x@ == a.spec_bytes(),
            y@ == b.spec_bytes(),
            x@.len() == y@.len(),
            i <= x@.len(),
            forall|j: int| 0 <= j < i ==> x@[j] == y@[j],
        decreases x@.len() - i,
    {
        if x[i] != y[i] {
            return false;
        }
        i += 1;
    }
    assert(x@ =~= y@);
    true
}

/// A longer numeral is worth no less.
proof fn lemma_numeral_grows(digits: Seq<u8>, n: int, radix: nat)
    requires
        0 <= n <= digits.len(),
        radix >= 1,
    ensures
        numeral_value(digits.take(n), radix) <= numeral_value(digits, radix),
    decreases digits.len() - n,
{
    if n < digits.len() {
        lemma_numeral_grows(digits, n + 1, radix);
        let longer = digits.take(n + 1);
        assert(longer.drop_last() =~= digits.take(n));
        assert(numeral_value(longer, radix) == numeral_value(digits.take(n), radix) * radix
            + digit_value(longer.last()));
        assert(numeral_value(digits.take(n), radix) * radix >= numeral_value(
            digits.take(n),
            radix,
        )) by (nonlinear_arith)
            requires
                radix >= 1,
        ;
    } else {
        assert(digits.take(n) =~= digits);
    }
}

/// Reads a numeral of decimal or hexadecimal digits that fits in 32 bits.
fn parse_numeral(digits: &[u8], radix: u32) -> (r: Option<u32>)
    requires
        radix == 10 || radix == 16,
        forall|i: int| 0 <= i < digits@.len() ==> is_hex_digit_byte(#[trigger] digits@[i]),
    ensures
        r == if digits@.len() == 0 || numeral_value(digits@, radix as nat) > u32::MAX {
            None
        } else {
            Some(numeral_value(digits@, radix as nat) as u32)
        },
{
    if digits.len() == 0 {
        return None;
    }
    let mut acc: u32 = 0;
    let mut i: usize = 0;
    while i < digits.len()
        invariant
            radix == 10 || radix == 16,
            forall|i: int| 0 <= i < digits@.len() ==> is_hex_digit_byte(#[trigger] digits@[i]),
            i <= digits@.len(),
            acc == numeral_value(digits@.take(i as int), radix as nat),
        decreases digits@.len() - i,
    {
        let b = digits[i];
        let d: u64 = if 0x30 <= b && b <= 0x39 {
            (b - 0x30) as u64
        } else if 0x41 <= b && b <= 0x46 {
            (b - 0x41 + 10) as u64
        } else {
            (b - 0x61 + 10) as u64
        };
        assert(acc as u64 * radix as u64 <= 0xFFFF_FFFF * 16) by (nonlinear_arith)
            requires
                acc <= 0xFFFF_FFFF,
                radix <= 16,
        ;
        let next: u64 = acc as u64 * radix as u64 + d;
        proof {
            let longer = digits@.take(i + 1);
            assert(longer.drop_last() =~= digits@.take(i as int));
            assert(longer.last() == b);
            assert(is_hex_digit_byte(digits@[i as int]));
            assert(next == numeral_value(longer, radix as nat));
        }
        if next > 0xFFFF_FFFF {
            proof {
                lemma_numeral_grows(digits@, i + 1, radix as nat);
            }
            return None;
        }
        acc = next as u32;
        i += 1;
    }
    assert(digits@.take(i as int) =~= digits@);
    Some(acc)
}

impl<'a> Stream<'a> {
    /// Skips whitespaces.
    ///
    /// Accepted values: `' ' \n \r \t`.
    #[inline]
    pub fn skip_spaces(&mut self)
        requires
            old(self).wf(),
        ensures
            final(self).wf(),
            final(self)@.follows(old(self)@),
            final(self)@ == old(self)@.skip_spaces(),
    {
        while !self.at_end() && self.curr_byte_unchecked().is_xml_space()
            invariant
                self.wf(),
                self@.follows(old(self)@),
                self@.skip_spaces() == old(self)@.skip_spaces(),
            decreases self@.remaining(),
        {
            proof {
                lemma_ascii_boundary(self@.bytes, self@.pos);
            }
            self.advance(1);
        }
    }

    /// Checks if the stream is starts with a space.
    #[inline]
    pub fn starts_with_space(&self) -> (r: bool)
        requires
            self.wf(),
        ensures
            r == self@.starts_with_space(),
    {
        !self.at_end() && self.curr_byte_unchecked().is_xml_space()
    }

    /// Consumes whitespaces.
    ///
    /// Like `skip_spaces()`, but checks that first char is actually a space.
    ///
    /// # Errors
    ///
    /// - `InvalidSpace`
    pub fn consume_spaces(&mut self) -> (r: Result<(), StreamError>)
        requires
            old(self).wf(),
        ensures
            final(self).wf(),
            final(self)@.follows(old(self)@),
            match old(self)@.consume_spaces() {
                Ok(cur) => r is Ok && final(self)@ == cur,
                Err(e) => r is Err && r->Err_0@ == e && final(self)@ == old(self)@,
            },
    {
        if self.at_end() {
            return Err(StreamError::UnexpectedEndOfStream);
        }
        if !self.starts_with_space() {
            return Err(
                StreamError::InvalidSpace(self.curr_byte_unchecked(), self.gen_text_pos()),
            );
        }
        self.skip_spaces();
        Ok(())
    }

    /// Consumes an XML character reference if there is one.
    ///
    /// On error the position stays where it was.
    pub fn try_consume_reference(&mut self) -> (r: Option<Reference<'a>>)
        requires
            old(self).wf(),
        ensures
            final(self).wf(),
            final(self)@.follows(old(self)@),
            final(self)@ == old(self)@.try_consume_reference().0,
            match old(self)@.try_consume_reference().1 {
                Some(v) => r is Some && r->0@ == v,
                None => r is None,
            },
    {
        let start = self.pos();
        // Consume reference on a substream.
        let mut s = *self;
        match s.consume_reference() {
            Ok(r) => {
                // If the current data is a reference than advance the current stream
                // by number of bytes read by substream.
                self.advance(s.pos() - start);
                Some(r)
            },
            Err(_) => None,
        }
    }

    /// Consumes an XML reference.
    ///
    /// Consumes according to: <https://www.w3.org/TR/xml/#NT-Reference>
    ///
    /// # Errors
    ///
    /// - `InvalidReference`
    pub fn consume_reference(&mut self) -> (r: Result<Reference<'a>, StreamError>)
        requires
            old(self).wf(),
        ensures
            final(self).wf(),
            final(self)@.follows(old(self)@),
            final(self)@ == old(self)@.reference_stop(),
            match old(self)@.consume_reference() {
                Ok((cur, v)) => r is Ok && r->Ok_0@ == v && final(self)@ == cur,
                Err(e) => r is Err && r->Err_0@ == e,
            },
    {
        match self._consume_reference() {
            Some(r) => Ok(r),
            None => Err(StreamError::InvalidReference),
        }
    }

    #[inline(never)]
    fn _consume_reference(&mut self) -> (r: Option<Reference<'a>>)
        requires
            old(self).wf(),
        ensures
            final(self).wf(),
            final(self)@.follows(old(self)@),
            final(self)@ == old(self)@.reference_stop(),
            match old(self)@.consume_reference() {
                Ok((cur, v)) => r is Some && r->0@ == v && final(self)@ == cur,
                Err(_) => r is None,
            },
    {
        if !self.try_consume_byte(0x26) {
            return None;
        }
        let reference = if self.try_consume_byte(0x23) {
            let (value, radix) = if self.try_consume_byte(0x78) {
                let ghost before = *self;
                let f = |_s: &Stream, c: u8| -> (r: bool)
                    ensures
                        r == is_hex_digit_byte(c),
                    { c.is_xml_hex_digit() };
                proof {
                    assert forall|p: int| #[trigger] self.bytes_stop(f, p) implies is_boundary(
                        self@.bytes,
                        p,
                    ) by {
                        self.lemma_accept_ascii(f, p);
                    }
                }
                let value = self.consume_bytes(f);
                proof {
                    before.lemma_skip_bytes(f, self@.pos, hex_digit_bytes());
                    assert forall|i: int| 0 <= i < value@.bytes.len() implies is_hex_digit_byte(
                        #[trigger] value@.bytes[i],
                    ) by {
                        let at = before.at(before@.pos + i);
                        assert(call_ensures(f, (&at, before@.bytes[before@.pos + i]), true));
                    }
                }
                let radix: u32 = 16;
                (value, radix)
            } else {
                let ghost before = *self;
                let f = |_s: &Stream, c: u8| -> (r: bool)
                    ensures
                        r == is_digit_byte(c),
                    { c.is_xml_digit() };
                proof {
                    assert forall|p: int| #[trigger] self.bytes_stop(f, p) implies is_boundary(
                        self@.bytes,
                        p,
                    ) by {
                        self.lemma_accept_ascii(f, p);
                    }
                }
                let value = self.consume_bytes(f);
                proof {
                    before.lemma_skip_bytes(f, self@.pos, digit_bytes());
                    assert forall|i: int| 0 <= i < value@.bytes.len() implies is_hex_digit_byte(
                        #[trigger] value@.bytes[i],
                    ) by {
                        let at = before.at(before@.pos + i);
                        assert(call_ensures(f, (&at, before@.bytes[before@.pos + i]), true));
                    }
                }
                let radix: u32 = 10;
                (value, radix)
            };
            let n = match parse_numeral(value.as_str().as_bytes(), radix) {
                Some(n) => n,
                None => { return None; },
            };
            let c = match char_from_u32(n) {
                Some(c) => c,
                None => '\u{FFFD}',
            };
            if !c.is_xml_char() {
                return None;
            }
            Reference::Char(c)
        } else {
            let name = match self.consume_name() {
                Ok(name) => name,
                Err(_) => { return None; },
            };
            let text = name.as_str();
            proof {
                reveal_strlit("quot");
                reveal_strlit("amp");
                reveal_strlit("apos");
                reveal_strlit("lt");
                reveal_strlit("gt");
            }
            if same_text(text, "quot") {
                Reference::Char('"')
            } else if same_text(text, "amp") {
                Reference::Char('&')
            } else if same_text(text, "apos") {
                Reference::Char('\'')
            } else if same_text(text, "lt") {
                Reference::Char('<')
            } else if same_text(text, "gt") {
                Reference::Char('>')
            } else {
                Reference::Entity(text)
            }
        };
        match self.consume_byte(0x3B) {
            Ok(_) => Some(reference),
            Err(_) => None,
        }
    }

    /// Consumes an XML name and returns it.
    ///
    /// Consumes according to: <https://www.w3.org/TR/xml/#NT-Name>
    ///
    /// # Errors
    ///
    /// - `InvalidName` - if name is empty or starts with an invalid char
    pub fn consume_name(&mut self) -> (r: Result<StrSpan<'a>, StreamError>)
        requires
            old(self).wf(),
        ensures
            final(self).wf(),
            final(self)@.follows(old(self)@),
            match old(self)@.consume_name() {
                Ok((cur, name)) => r is Ok && r->Ok_0@ == name && final(self)@ == cur,
                Err(e) => r is Err && r->Err_0@ == e && final(self)@ == old(self)@,
            },
    {
        let start = self.pos();
        self.skip_name()?;
        Ok(self.slice_back(start))
    }

    /// Skips an XML name.
    ///
    /// The same as `consume_name()`, but does not return a consumed name.
    ///
    /// # Errors
    ///
    /// - `InvalidName` - if name is empty or starts with an invalid char
    pub fn skip_name(&mut self) -> (r: Result<(), StreamError>)
        requires
            old(self).wf(),
        ensures
            final(self).wf(),
            final(self)@.follows(old(self)@),
            match old(self)@.skip_name() {
                Ok(cur) => r is Ok && final(self)@ == cur,
                Err(e) => r is Err && r->Err_0@ == e && final(self)@ == old(self)@,
            },
    {
        if self.at_end() {
            return Err(StreamError::InvalidName);
        }
        let c = self.curr_char();
        if c.is_xml_name_start() {
            self.advance(len_utf8(c));
        } else {
            return Err(StreamError::InvalidName);
        }
        loop
            invariant
                self.wf(),
                self@.follows(old(self)@),
                old(self)@.skip_name() == Ok::<Cursor, StreamFault>(
                    self@.skip_chars_while(name_chars()),
                ),
            ensures
                self.wf(),
                self@.follows(old(self)@),
                old(self)@.skip_name() == Ok::<Cursor, StreamFault>(self@),
            decreases self@.remaining(),
        {
            if self.at_end() {
                break;
            }
            let c = self.curr_char();
            if c.is_xml_name() {
                self.advance(len_utf8(c));
            } else {
                break;
            }
        }
        Ok(())
    }

    /// Consumes a qualified XML name and returns it.
    ///
    /// Consumes according to: <https://www.w3.org/TR/xml-names/#ns-qualnames>
    ///
    /// # Errors
    ///
    /// - `InvalidName` - if name is empty or starts with an invalid char
    #[inline(never)]
    pub fn consume_qname(&mut self) -> (r: Result<(StrSpan<'a>, StrSpan<'a>), StreamError>)
        requires
            old(self).wf(),
        ensures
            final(self).wf(),
            final(self)@.follows(old(self)@),
            final(self)@ == old(self)@.qname_stop(None),
            match old(self)@.consume_qname() {
                Ok((cur, prefix, local)) => {
                    &&& r is Ok
                    &&& r->Ok_0.0@ == prefix
                    &&& r->Ok_0.1@ == local
                    &&& final(self)@ == cur
                },
                Err(e) => r is Err && r->Err_0@ == e,
            },
    {
        let start = self.pos();
        let mut splitter: Option<usize> = None;
        loop
            invariant
                self.wf(),
                self@.follows(old(self)@),
                start == old(self)@.pos,
                match splitter {
                    Some(p) => {
                        &&& start <= p < self@.pos
                        &&& self@.bytes[p as int] == 0x3A
                        &&& old(self)@.scan_qname(None) == self@.scan_qname(Some(p as int))
                        &&& old(self)@.qname_stop(None) == self@.qname_stop(Some(p as int))
                    },
                    None => {
                        &&& old(self)@.scan_qname(None) == self@.scan_qname(None)
                        &&& old(self)@.qname_stop(None) == self@.qname_stop(None)
                    },
                },
            ensures
                old(self)@.qname_stop(None) == self@,
                self.wf(),
                self@.follows(old(self)@),
                match splitter {
                    Some(p) => {
                        &&& start <= p < self@.pos
                        &&& self@.bytes[p as int] == 0x3A
                        &&& old(self)@.scan_qname(None) == Ok::<
                            (Cursor, Option<int>),
                            StreamFault,
                        >((self@, Some(p as int)))
                    },
                    None => old(self)@.scan_qname(None) == Ok::<(Cursor, Option<int>), StreamFault>(
                        (self@, None),
                    ),
                },
            decreases self@.remaining(),
        {
            if self.at_end() {
                break;
            }
            // Check for ASCII first for performance reasons.
            let b = self.curr_byte_unchecked();
            if b < 128 {
                proof {
                    lemma_ascii_boundary(self@.bytes, self@.pos);
                }
                if b == 0x3A {
                    if splitter.is_none() {
                        splitter = Some(self.pos());
                        self.advance(1);
                    } else {
                        // Multiple `:` is an error.
                        return Err(StreamError::InvalidName);
                    }
                } else if b.is_xml_name() {
                    self.advance(1);
                } else {
                    break;
                }
            } else {
                // Fallback to Unicode code point.
                let c = self.curr_char();
                if c.is_xml_name() {
                    self.advance(len_utf8(c));
                } else {
                    break;
                }
            }
        }
        let (prefix, local) = match splitter {
            Some(p) => {
                proof {
                    lemma_ascii_boundary(self@.bytes, p as int);
                }
                let prefix = self.span.slice_region(start, p);
                let local = self.slice_back(p + 1);
                (prefix, local)
            },
            None => {
                let prefix = self.span.slice_region(start, start);
                let local = self.slice_back(start);
                (prefix, local)
            },
        };
        // Prefix must start with a `NameStartChar`.
        if !prefix.is_empty() {
            let c = self.char_from(prefix.start());
            if !c.is_xml_name_start() {
                return Err(StreamError::InvalidName);
            }
        }
        // Local name must start with a `NameStartChar`.
        if !local.is_empty() {
            let c = self.char_from(local.start());
            if !c.is_xml_name_start() {
                return Err(StreamError::InvalidName);
            }
        } else {
            // If empty - error.
            return Err(StreamError::InvalidName);
        }
        Ok((prefix, local))
    }

    /// Consumes `=`.
    ///
    /// Consumes according to: <https://www.w3.org/TR/xml/#NT-Eq>
    ///
    /// # Errors
    ///
    /// - `InvalidChar`
    /// - `UnexpectedEndOfStream`
    pub fn consume_eq(&mut self) -> (r: Result<(), StreamError>)
        requires
            old(self).wf(),
        ensures
            final(self).wf(),
            final(self)@.follows(old(self)@),
            match old(self)@.consume_eq() {
                Ok(cur) => r is Ok && final(self)@ == cur,
                Err(e) => r is Err && r->Err_0@ == e && final(self)@ == old(self)@.skip_spaces(),
            },
    {
        self.skip_spaces();
        self.consume_byte(0x3D)?;
        self.skip_spaces();
        Ok(())
    }

    /// Consumes quote.
    ///
    /// Consumes `'` or `"` and returns it.
    ///
    /// # Errors
    ///
    /// - `InvalidQuote`
    /// - `UnexpectedEndOfStream`
    pub fn consume_quote(&mut self) -> (r: Result<u8, StreamError>)
        requires
            old(self).wf(),
        ensures
            final(self).wf(),
            final(self)@.follows(old(self)@),
            match old(self)@.consume_quote() {
                Ok((cur, q)) => r == Ok::<u8, StreamError>(q) && final(self)@ == cur,
                Err(e) => r is Err && r->Err_0@ == e && final(self)@ == old(self)@,
            },
    {
        let c = self.curr_byte()?;
        if c == 0x27 || c == 0x22 {
            proof {
                lemma_ascii_boundary(self@.bytes, self@.pos);
            }
            self.advance(1);
            Ok(c)
        } else {
            Err(StreamError::InvalidQuote(c, self.gen_text_pos()))
        }
    }
}

impl<'a> Stream<'a> {
    /// `consume_chars` with a predicate that computes `pred`.
    pub(crate) fn consume_chars_by<F>(
        &mut self,
        f: F,
        Ghost(pred): Ghost<spec_fn(Cursor, char) -> bool>,
    ) -> (r: Result<StrSpan<'a>, StreamError>) where F: Fn(&Stream, char) -> bool
        requires
            old(self).wf(),
            forall|t: &Stream, c: char| t.wf() ==> call_requires(f, (t, c)),
            forall|t: &Stream, c: char, r: bool|
                t.wf() && call_ensures(f, (t, c), r) ==> r == pred(t@, c),
        ensures
            final(self).wf(),
            final(self)@.follows(old(self)@),
            match old(self)@.consume_chars(pred) {
                Ok((cur, text)) => r is Ok && r->Ok_0@ == text && final(self)@ == cur,
                Err(e) => r is Err && r->Err_0@ == e,
            },
    {
        proof {
            assert forall|p: int| #[trigger]
                self.chars_accepted(f, p) && p < self@.end implies call_requires(
                f,
                (&self.at(p), char_at(self@.bytes, p)),
            ) by {
                self.lemma_chars_accepted(f, p);
            }
        }
        let r = self.consume_chars(f);
        proof {
            old(self).lemma_chars_accepted(f, self@.pos);
            old(self).lemma_skip_chars(f, self@.pos, pred);
        }
        r
    }

    /// `consume_bytes` with a predicate that computes `pred` and that
    /// either accepts ASCII bytes only or refuses ASCII bytes only.
    pub(crate) fn consume_bytes_by<F>(&mut self, f: F, Ghost(pred): Ghost<spec_fn(u8) -> bool>) -> (r:
        StrSpan<'a>) where F: Fn(&Stream, u8) -> bool
        requires
            old(self).wf(),
            forall|t: &Stream, b: u8| call_requires(f, (t, b)),
            forall|t: &Stream, b: u8, r: bool| call_ensures(f, (t, b), r) ==> r == pred(b),
            (forall|b: u8| #[trigger] pred(b) ==> b < 0x80) || (forall|b: u8| !#[trigger] pred(b) ==> b < 0x80),
        ensures
            final(self).wf(),
            final(self)@.follows(old(self)@),
            (final(self)@, r@) == old(self)@.consume_bytes(pred),
    {
        proof {
            assert forall|p: int| #[trigger] self.bytes_stop(f, p) implies is_boundary(
                self@.bytes,
                p,
            ) by {
                if forall|b: u8| #[trigger] pred(b) ==> b < 0x80 {
                    self.lemma_accept_ascii(f, p);
                } else {
                    self.lemma_stop_at_ascii(f, p);
                }
            }
        }
        let r = self.consume_bytes(f);
        proof {
            old(self).lemma_skip_bytes(f, self@.pos, pred);
        }
        r
    }
}

} // verus!
