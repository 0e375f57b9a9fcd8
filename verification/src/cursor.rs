//! The stream as a mathematical object: a text, a position in it and an end,
//! and what each primitive of the stream makes of them.

use vstd::prelude::*;
use vstd::utf8::*;
use crate::encoding::{char_at, char_width, is_boundary};
use crate::error::{StreamFault, TextPos};
use crate::strspan::Slice;
use crate::xmlchar::{
    is_digit_byte,
    is_hex_digit_byte,
    is_name_byte,
    is_name_char,
    is_name_start_char,
    is_space_byte,
    is_xml_char,
};

verus! {

/// The number of line feeds among the first `p` bytes.
pub open spec fn newlines_before(bytes: Seq<u8>, p: int) -> nat
    decreases p,
{
    if p <= 0 {
        0
    } else {
        newlines_before(bytes, p - 1) + if bytes[p - 1] == 0x0A {
            1nat
        } else {
            0nat
        }
    }
}

/// The number of characters between the last line feed before `p` (or the
/// start of the text) and `p`: the bytes there that start a character.
pub open spec fn chars_in_line_before(bytes: Seq<u8>, p: int) -> nat
    decreases p,
{
    if p <= 0 || bytes[p - 1] == 0x0A {
        0
    } else {
        chars_in_line_before(bytes, p - 1) + if is_continuation_byte(bytes[p - 1]) {
            0nat
        } else {
            1nat
        }
    }
}

/// The position at which the line of `p` starts: behind the last line
/// feed before `p`, or at the start of the text.
pub open spec fn line_start(bytes: Seq<u8>, p: int) -> int
    decreases p,
{
    if p <= 0 {
        0
    } else if bytes[p - 1] == 0x0A {
        p
    } else {
        line_start(bytes, p - 1)
    }
}

/// The number of bytes from `a` up to `p` that start a character.
pub open spec fn starts_between(bytes: Seq<u8>, a: int, p: int) -> nat
    decreases p - a,
{
    if p <= a {
        0
    } else {
        starts_between(bytes, a, p - 1) + if is_continuation_byte(bytes[p - 1]) {
            0nat
        } else {
            1nat
        }
    }
}

proof fn lemma_starts_split(bytes: Seq<u8>, a: int, k: int, p: int)
    requires
        a <= k <= p,
    ensures
        starts_between(bytes, a, p) == starts_between(bytes, a, k) + starts_between(bytes, k, p),
    decreases p - k,
{
    if k < p {
        lemma_starts_split(bytes, a, k, p - 1);
    }
}

proof fn lemma_starts_of_char(bytes: Seq<u8>, a: int, p: int)
    requires
        0 <= a < p <= bytes.len(),
        !is_continuation_byte(bytes[a]),
        forall|j: int| a < j < p ==> is_continuation_byte(#[trigger] bytes[j]),
    ensures
        starts_between(bytes, a, p) == 1,
    decreases p - a,
{
    if a + 1 < p {
        lemma_starts_of_char(bytes, a, p - 1);
    } else {
        assert(starts_between(bytes, a, a) == 0);
    }
}

/// Between two boundaries of valid UTF-8 there are as many characters as
/// there are bytes that start one.
pub proof fn lemma_starts_are_chars(bytes: Seq<u8>, a: int, p: int)
    requires
        valid_utf8(bytes),
        is_boundary(bytes, a),
        is_boundary(bytes, p),
        a <= p,
    ensures
        valid_utf8(bytes.subrange(a, p)),
        decode_utf8(bytes.subrange(a, p)).len() == starts_between(bytes, a, p),
    decreases p - a,
{
    let part = bytes.subrange(a, p);
    if a < p {
        crate::encoding::lemma_char_at(bytes, a);
        let w = char_width(char_at(bytes, a));
        if a + w > p {
            assert(is_continuation_byte(bytes[p]));
        }
        lemma_starts_are_chars(bytes, a + w, p);
        lemma_starts_split(bytes, a, a + w, p);
        lemma_starts_of_char(bytes, a, a + w);
        let rest = bytes.subrange(a + w, p);
        let whole = crate::encoding::tail(bytes, a);
        assert(part.len() >= w);
        assert(forall|j: int| 0 <= j < w ==> part[j] == whole[j]);
        assert(valid_first_scalar(part));
        assert(length_of_first_scalar(part) == w);
        assert(pop_first_scalar(part) =~= rest);
        assert(valid_utf8(part));
        assert(decode_utf8(part) =~= seq![decode_first_scalar(part) as char] + decode_utf8(rest));
    } else {
        assert(part =~= Seq::<u8>::empty());
    }
}

/// The column counts the characters of the line before `p`: what
/// `chars_in_line_before` counts are the characters that the text holds
/// between the start of the line and `p`.
pub proof fn lemma_chars_in_line(bytes: Seq<u8>, p: int)
    requires
        valid_utf8(bytes),
        is_boundary(bytes, p),
    ensures
        0 <= line_start(bytes, p) <= p,
        is_boundary(bytes, line_start(bytes, p)),
        chars_in_line_before(bytes, p) == decode_utf8(
            bytes.subrange(line_start(bytes, p), p),
        ).len(),
{
    lemma_line(bytes, p);
    lemma_starts_are_chars(bytes, line_start(bytes, p), p);
}

proof fn lemma_line(bytes: Seq<u8>, p: int)
    requires
        valid_utf8(bytes),
        0 <= p <= bytes.len(),
    ensures
        0 <= line_start(bytes, p) <= p,
        is_boundary(bytes, line_start(bytes, p)),
        chars_in_line_before(bytes, p) == starts_between(bytes, line_start(bytes, p), p),
    decreases p,
{
    if p <= 0 {
    } else if bytes[p - 1] == 0x0A {
        crate::encoding::lemma_ascii_boundary(bytes, p - 1);
    } else {
        lemma_line(bytes, p - 1);
    }
}

/// Row and column of the byte position `p`, both counted from 1 and both
/// reduced modulo 2^32.
pub open spec fn text_pos_at(bytes: Seq<u8>, p: int) -> TextPos {
    TextPos {
        row: ((1 + newlines_before(bytes, p)) % 0x1_0000_0000) as u32,
        col: ((1 + chars_in_line_before(bytes, p)) % 0x1_0000_0000) as u32,
    }
}

/// The value of a numeral: `digits` read in base `radix`, most significant
/// digit first.
pub open spec fn numeral_value(digits: Seq<u8>, radix: nat) -> nat
    decreases digits.len(),
{
    if digits.len() == 0 {
        0
    } else {
        numeral_value(digits.drop_last(), radix) * radix + digit_value(digits.last())
    }
}

/// The value of one hexadecimal digit.
pub open spec fn digit_value(b: u8) -> nat {
    if 0x30 <= b <= 0x39 {
        (b - 0x30) as nat
    } else if 0x41 <= b <= 0x46 {
        (b - 0x41 + 10) as nat
    } else if 0x61 <= b <= 0x66 {
        (b - 0x61 + 10) as nat
    } else {
        0
    }
}

/// What a reference stands for.
pub enum Referent {
    /// A named entity other than the five predefined ones.
    Entity(Seq<char>),
    /// A character: one given by number, or a predefined entity.
    Char(char),
}

/// A name that is one of the five predefined entities stands for a character.
pub open spec fn referent_of_name(name: Seq<char>) -> Referent {
    if name == "quot"@ {
        Referent::Char('"')
    } else if name == "amp"@ {
        Referent::Char('&')
    } else if name == "apos"@ {
        Referent::Char('\'')
    } else if name == "lt"@ {
        Referent::Char('<')
    } else if name == "gt"@ {
        Referent::Char('>')
    } else {
        Referent::Entity(name)
    }
}

/// The bytes that are XML white space.
pub open spec fn space_bytes() -> spec_fn(u8) -> bool {
    |b: u8| is_space_byte(b)
}

/// The bytes that are decimal digits.
pub open spec fn digit_bytes() -> spec_fn(u8) -> bool {
    |b: u8| is_digit_byte(b)
}

/// The bytes that are hexadecimal digits.
pub open spec fn hex_digit_bytes() -> spec_fn(u8) -> bool {
    |b: u8| is_hex_digit_byte(b)
}

/// The bytes other than `b`.
pub open spec fn bytes_other_than(b: u8) -> spec_fn(u8) -> bool {
    |x: u8| x != b
}

/// The characters of the `NameChar` production, wherever they stand.
pub open spec fn name_chars() -> spec_fn(Cursor, char) -> bool {
    |c: Cursor, ch: char| is_name_char(ch)
}

/// The XML characters that `pred` holds of.
pub open spec fn xml_chars(pred: spec_fn(Cursor, char) -> bool) -> spec_fn(Cursor, char) -> bool {
    |c: Cursor, ch: char| is_xml_char(ch) && pred(c, ch)
}

/// A stream: the bytes of a text, the position of the text in its source,
/// the current position and the end of the part that is read.
pub struct Cursor {
    pub bytes: Seq<u8>,
    pub origin: int,
    pub pos: int,
    pub end: int,
}

impl Cursor {
    /// The text is valid UTF-8, and the position and the end are boundaries
    /// of it, in this order.
    pub open spec fn wf(self) -> bool {
        &&& valid_utf8(self.bytes)
        &&& 0 <= self.origin
        &&& 0 <= self.pos <= self.end <= self.bytes.len()
        &&& is_boundary(self.bytes, self.pos)
        &&& is_boundary(self.bytes, self.end)
    }

    /// The same stream at position `p`.
    pub open spec fn at(self, p: int) -> Cursor {
        Cursor { pos: p, ..self }
    }

    pub open spec fn advance(self, n: int) -> Cursor {
        self.at(self.pos + n)
    }

    /// This stream is `before` at the same or a later position.
    pub open spec fn follows(self, before: Cursor) -> bool {
        &&& self.bytes == before.bytes
        &&& self.origin == before.origin
        &&& self.end == before.end
        &&& before.pos <= self.pos
    }

    /// The same stream, read up to `e` only.
    pub open spec fn until(self, e: int) -> Cursor {
        Cursor { end: e, ..self }
    }

    /// The number of bytes left to read.
    pub open spec fn remaining(self) -> nat {
        if self.pos < self.end {
            (self.end - self.pos) as nat
        } else {
            0
        }
    }

    pub open spec fn at_end(self) -> bool {
        self.pos >= self.end
    }

    /// The byte at the position.
    pub open spec fn curr(self) -> u8 {
        self.bytes[self.pos]
    }

    /// The character at the position.
    pub open spec fn char(self) -> char {
        char_at(self.bytes, self.pos)
    }

    pub open spec fn curr_byte(self) -> Result<u8, StreamFault> {
        if self.at_end() {
            Err(StreamFault::UnexpectedEndOfStream)
        } else {
            Ok(self.curr())
        }
    }

    pub open spec fn next_byte(self) -> Result<u8, StreamFault> {
        if self.pos + 1 >= self.end {
            Err(StreamFault::UnexpectedEndOfStream)
        } else {
            Ok(self.bytes[self.pos + 1])
        }
    }

    /// The bytes of `text` stand at the position, before the end.
    pub open spec fn starts_with(self, text: Seq<u8>) -> bool {
        &&& self.pos + text.len() <= self.end
        &&& self.bytes.subrange(self.pos, self.pos + text.len()) == text
    }

    pub open spec fn starts_with_space(self) -> bool {
        !self.at_end() && is_space_byte(self.curr())
    }

    /// Row and column of the position.
    pub open spec fn text_pos(self) -> TextPos {
        text_pos_at(self.bytes, self.pos)
    }

    /// Row and column of `p`, or of the end of the text where `p` lies behind it.
    pub open spec fn text_pos_from(self, p: int) -> TextPos {
        text_pos_at(
            self.bytes,
            if p <= self.bytes.len() {
                p
            } else {
                self.bytes.len() as int
            },
        )
    }

    /// The part of the text from `start` to the position.
    pub open spec fn slice_back(self, start: int) -> Slice {
        Slice::of(self.bytes, start, self.pos)
    }

    /// The part of the text from the position to the end.
    pub open spec fn slice_tail(self) -> Slice {
        Slice::of(self.bytes, self.pos, self.end)
    }

    pub open spec fn consume_byte(self, b: u8) -> Result<Cursor, StreamFault> {
        if self.at_end() {
            Err(StreamFault::UnexpectedEndOfStream)
        } else if self.curr() != b {
            Err(StreamFault::InvalidChar(self.curr(), b, self.text_pos()))
        } else {
            Ok(self.advance(1))
        }
    }

    /// Whether `b` stands at the position; the stream behind it if so.
    pub open spec fn try_consume_byte(self, b: u8) -> (Cursor, bool) {
        if !self.at_end() && self.curr() == b {
            (self.advance(1), true)
        } else {
            (self, false)
        }
    }

    pub open spec fn skip_string(self, text: Seq<u8>) -> Result<Cursor, StreamFault> {
        if self.starts_with(text) {
            Ok(self.advance(text.len() as int))
        } else {
            Err(StreamFault::InvalidString(decode_utf8(text), self.text_pos()))
        }
    }

    /// The stream at the first byte from the position on that `pred` does not
    /// hold of, or at the end.
    pub open spec fn skip_bytes_while(self, pred: spec_fn(u8) -> bool) -> Cursor
        decreases self.remaining(),
    {
        if self.pos < self.end && pred(self.curr()) {
            self.advance(1).skip_bytes_while(pred)
        } else {
            self
        }
    }

    /// The stream at the first character from the position on that `pred`
    /// does not hold of, or at the end. `pred` sees the stream at the character.
    pub open spec fn skip_chars_while(self, pred: spec_fn(Cursor, char) -> bool) -> Cursor
        decreases self.remaining(),
    {
        if self.pos < self.end && pred(self, self.char()) {
            self.advance(char_width(self.char())).skip_chars_while(pred)
        } else {
            self
        }
    }

    /// Where `skip_chars` stops: at the end, at a character that is no XML
    /// character, or at one that `pred` does not hold of.
    pub open spec fn skip_chars_stop(self, pred: spec_fn(Cursor, char) -> bool) -> Cursor {
        self.skip_chars_while(xml_chars(pred))
    }

    /// `skip_chars` fails exactly where it stops at a character that is no
    /// XML character.
    pub open spec fn skip_chars(self, pred: spec_fn(Cursor, char) -> bool) -> Result<
        Cursor,
        StreamFault,
    > {
        let stop = self.skip_chars_stop(pred);
        if !stop.at_end() && !is_xml_char(stop.char()) {
            Err(StreamFault::NonXmlChar(stop.char(), stop.text_pos()))
        } else {
            Ok(stop)
        }
    }

    /// The bytes skipped by `skip_bytes_while`.
    pub open spec fn consume_bytes(self, pred: spec_fn(u8) -> bool) -> (Cursor, Slice) {
        let c = self.skip_bytes_while(pred);
        (c, c.slice_back(self.pos))
    }

    pub open spec fn consume_chars(self, pred: spec_fn(Cursor, char) -> bool) -> Result<
        (Cursor, Slice),
        StreamFault,
    > {
        match self.skip_chars(pred) {
            Ok(c) => Ok((c, c.slice_back(self.pos))),
            Err(e) => Err(e),
        }
    }

    pub open spec fn skip_spaces(self) -> Cursor {
        self.skip_bytes_while(space_bytes())
    }

    pub open spec fn consume_spaces(self) -> Result<Cursor, StreamFault> {
        if self.at_end() {
            Err(StreamFault::UnexpectedEndOfStream)
        } else if !is_space_byte(self.curr()) {
            Err(StreamFault::InvalidSpace(self.curr(), self.text_pos()))
        } else {
            Ok(self.skip_spaces())
        }
    }

    /// `S? '=' S?`
    pub open spec fn consume_eq(self) -> Result<Cursor, StreamFault> {
        match self.skip_spaces().consume_byte(0x3D) {
            Ok(c) => Ok(c.skip_spaces()),
            Err(e) => Err(e),
        }
    }

    /// `'` or `"`
    pub open spec fn consume_quote(self) -> Result<(Cursor, u8), StreamFault> {
        if self.at_end() {
            Err(StreamFault::UnexpectedEndOfStream)
        } else if self.curr() == 0x27 || self.curr() == 0x22 {
            Ok((self.advance(1), self.curr()))
        } else {
            Err(StreamFault::InvalidQuote(self.curr(), self.text_pos()))
        }
    }

    /// A `Name`: one `NameStartChar`, then every `NameChar` that follows.
    /// An empty name fails, at the end of the stream too.
    pub open spec fn skip_name(self) -> Result<Cursor, StreamFault> {
        if self.at_end() || !is_name_start_char(self.char()) {
            Err(StreamFault::InvalidName)
        } else {
            Ok(self.advance(char_width(self.char())).skip_chars_while(name_chars()))
        }
    }

    /// A `Name`, and the part of the text that it covers.
    pub open spec fn consume_name(self) -> Result<(Cursor, Slice), StreamFault> {
        match self.skip_name() {
            Err(e) => Err(e),
            Ok(c) => Ok((c, c.slice_back(self.pos))),
        }
    }

    /// The characters that a qualified name is read from: every `NameChar`
    /// from the position on, up to a second colon. The result is the stop and
    /// the position of the colon, if there is one; a second colon fails.
    pub open spec fn scan_qname(self, colon: Option<int>) -> Result<(Cursor, Option<int>), StreamFault>
        decreases self.remaining(),
    {
        if self.pos >= self.end {
            Ok((self, colon))
        } else if self.curr() < 0x80 {
            if self.curr() == 0x3A {
                if colon is None {
                    self.advance(1).scan_qname(Some(self.pos))
                } else {
                    Err(StreamFault::InvalidName)
                }
            } else if is_name_byte(self.curr()) {
                self.advance(1).scan_qname(colon)
            } else {
                Ok((self, colon))
            }
        } else if is_name_char(self.char()) {
            self.advance(char_width(self.char())).scan_qname(colon)
        } else {
            Ok((self, colon))
        }
    }

    /// Where the reading of a qualified name stops: at the end, at a second
    /// colon, or at a character that is no `NameChar`.
    pub open spec fn qname_stop(self, colon: Option<int>) -> Cursor
        decreases self.remaining(),
    {
        if self.pos >= self.end {
            self
        } else if self.curr() < 0x80 {
            if self.curr() == 0x3A {
                if colon is None {
                    self.advance(1).qname_stop(Some(self.pos))
                } else {
                    self
                }
            } else if is_name_byte(self.curr()) {
                self.advance(1).qname_stop(colon)
            } else {
                self
            }
        } else if is_name_char(self.char()) {
            self.advance(char_width(self.char())).qname_stop(colon)
        } else {
            self
        }
    }

    /// A qualified name: prefix and local part. Without a colon the prefix is
    /// empty and stands where the name starts. Each part that is not empty
    /// starts with a `NameStartChar`, and the local part is not empty.
    pub open spec fn consume_qname(self) -> Result<(Cursor, Slice, Slice), StreamFault> {
        match self.scan_qname(None) {
            Err(e) => Err(e),
            Ok((c, colon)) => {
                let prefix_end = match colon {
                    Some(p) => p,
                    None => self.pos,
                };
                let local_start = match colon {
                    Some(p) => p + 1,
                    None => self.pos,
                };
                if prefix_end > self.pos && !is_name_start_char(char_at(self.bytes, self.pos)) {
                    Err(StreamFault::InvalidName)
                } else if local_start >= c.pos || !is_name_start_char(
                    char_at(self.bytes, local_start),
                ) {
                    Err(StreamFault::InvalidName)
                } else {
                    Ok(
                        (
                            c,
                            Slice::of(self.bytes, self.pos, prefix_end),
                            Slice::of(self.bytes, local_start, c.pos),
                        ),
                    )
                }
            },
        }
    }

    /// The character that a character reference names by number: the digits
    /// give a number that fits in 32 bits; a number that is no Unicode scalar
    /// value stands for U+FFFD; the character is an XML character.
    pub open spec fn numbered_char(digits: Seq<u8>, radix: nat) -> Option<char> {
        let n = numeral_value(digits, radix);
        if digits.len() == 0 || n > u32::MAX {
            None
        } else {
            let c = if is_scalar(n as u32) {
                (n as u32) as char
            } else {
                '\u{FFFD}'
            };
            if is_xml_char(c) {
                Some(c)
            } else {
                None
            }
        }
    }

    /// The part of a reference between `&` and `;`: `#` and decimal digits,
    /// `#x` and hexadecimal digits, or a name.
    pub open spec fn reference_body(self) -> Option<(Cursor, Referent)> {
        let (c1, numbered) = self.try_consume_byte(0x23);
        if numbered {
            let (c2, hex) = c1.try_consume_byte(0x78);
            let c3 = if hex {
                c2.skip_bytes_while(hex_digit_bytes())
            } else {
                c2.skip_bytes_while(digit_bytes())
            };
            let radix: nat = if hex {
                16
            } else {
                10
            };
            match Self::numbered_char(self.bytes.subrange(c2.pos, c3.pos), radix) {
                Some(ch) => Some((c3, Referent::Char(ch))),
                None => None,
            }
        } else {
            match self.consume_name() {
                Ok((c, name)) => Some((c, referent_of_name(name.text()))),
                Err(_) => None,
            }
        }
    }

    /// A reference: `&`, its body and `;`. Whatever is wrong, the fault is
    /// `InvalidReference`.
    pub open spec fn consume_reference(self) -> Result<(Cursor, Referent), StreamFault> {
        let (c1, amp) = self.try_consume_byte(0x26);
        if !amp {
            Err(StreamFault::InvalidReference)
        } else {
            match c1.reference_body() {
                None => Err(StreamFault::InvalidReference),
                Some((c2, r)) => match c2.consume_byte(0x3B) {
                    Ok(c3) => Ok((c3, r)),
                    Err(_) => Err(StreamFault::InvalidReference),
                },
            }
        }
    }

    /// Where the reading of a reference stops: behind the reference, or
    /// where it went wrong.
    pub open spec fn reference_stop(self) -> Cursor {
        let (c1, amp) = self.try_consume_byte(0x26);
        let (c2, numbered) = c1.try_consume_byte(0x23);
        if !amp {
            self
        } else if numbered {
            let (c3, hex) = c2.try_consume_byte(0x78);
            let c4 = if hex {
                c3.skip_bytes_while(hex_digit_bytes())
            } else {
                c3.skip_bytes_while(digit_bytes())
            };
            let radix: nat = if hex {
                16
            } else {
                10
            };
            if Self::numbered_char(self.bytes.subrange(c3.pos, c4.pos), radix) is None {
                c4
            } else {
                match c4.consume_byte(0x3B) {
                    Ok(c5) => c5,
                    Err(_) => c4,
                }
            }
        } else {
            match c1.consume_name() {
                Err(_) => c1,
                Ok((c3, _)) => match c3.consume_byte(0x3B) {
                    Ok(c4) => c4,
                    Err(_) => c3,
                },
            }
        }
    }

    /// A reference if one stands at the position; else the stream stays
    /// where it is.
    pub open spec fn try_consume_reference(self) -> (Cursor, Option<Referent>) {
        match self.consume_reference() {
            Ok((c, r)) => (c, Some(r)),
            Err(_) => (self, None),
        }
    }
}

impl Cursor {
    /// Skipping bytes stops between the position and the end, behind bytes
    /// that `pred` holds of and before one that it does not hold of.
    pub proof fn lemma_skip_bytes_while(self, pred: spec_fn(u8) -> bool)
        requires
            self.pos <= self.end,
        ensures
            self.skip_bytes_while(pred).follows(self),
            self.skip_bytes_while(pred).pos <= self.end,
            forall|i: int| self.pos <= i < self.skip_bytes_while(pred).pos ==> pred(self.bytes[i]),
            self.skip_bytes_while(pred).at_end() || !pred(self.skip_bytes_while(pred).curr()),
        decreases self.remaining(),
    {
        if self.pos < self.end && pred(self.curr()) {
            self.advance(1).lemma_skip_bytes_while(pred);
        }
    }

    /// White space is ASCII: skipping it keeps the stream well-formed.
    pub proof fn lemma_skip_spaces(self)
        requires
            self.wf(),
        ensures
            self.skip_spaces().wf(),
            self.skip_spaces().follows(self),
            self.skip_spaces().at_end() || !is_space_byte(self.skip_spaces().curr()),
            self.starts_with_space() ==> self.skip_spaces().pos > self.pos,
        decreases self.remaining(),
    {
        if self.pos < self.end && is_space_byte(self.curr()) {
            crate::encoding::lemma_ascii_boundary(self.bytes, self.pos);
            self.advance(1).lemma_skip_spaces();
        }
    }

    /// Skipping characters keeps the stream well-formed and stops at the end
    /// or before a character that `pred` does not hold of.
    pub proof fn lemma_skip_chars_while(self, pred: spec_fn(Cursor, char) -> bool)
        requires
            self.wf(),
        ensures
            self.skip_chars_while(pred).wf(),
            self.skip_chars_while(pred).follows(self),
            self.skip_chars_while(pred).at_end() || !pred(
                self.skip_chars_while(pred),
                self.skip_chars_while(pred).char(),
            ),
        decreases self.remaining(),
    {
        if self.pos < self.end && pred(self, self.char()) {
            self.lemma_char_step();
            self.advance(char_width(self.char())).lemma_skip_chars_while(pred);
        }
    }

    /// Before the end a whole character stands at the position.
    pub proof fn lemma_char_step(self)
        requires
            self.wf(),
            !self.at_end(),
        ensures
            self.advance(char_width(self.char())).wf(),
            self.advance(char_width(self.char())).follows(self),
            char_width(self.char()) >= 1,
            self.curr() < 0x80 <==> (self.char() as u32) < 0x80,
            self.curr() < 0x80 ==> self.char() as u32 == self.curr() as u32,
    {
        crate::encoding::lemma_char_at(self.bytes, self.pos);
        let w = char_width(self.char());
        if self.pos + w > self.end {
            assert(is_continuation_byte(self.bytes[self.end]));
        }
    }

    /// A name that was skipped leaves the stream well-formed.
    pub proof fn lemma_skip_name(self)
        requires
            self.wf(),
        ensures
            match self.skip_name() {
                Ok(c) => c.wf() && c.follows(self) && c.pos > self.pos,
                Err(e) => e == StreamFault::InvalidName,
            },
    {
        if !self.at_end() && is_name_start_char(self.char()) {
            self.lemma_char_step();
            self.advance(char_width(self.char())).lemma_skip_chars_while(name_chars());
        }
    }

    /// A name that was consumed is not empty, and the stream stands behind it.
    pub proof fn lemma_consume_name(self)
        requires
            self.wf(),
        ensures
            match self.consume_name() {
                Ok((c, name)) => {
                    &&& c.wf()
                    &&& c.follows(self)
                    &&& c.pos > self.pos
                    &&& name == Slice::of(self.bytes, self.pos, c.pos)
                },
                Err(_) => true,
            },
    {
        self.lemma_skip_name();
    }

    /// What a qualified name is read from leaves the stream well-formed, and
    /// the colon, if there is one, stands before the stop.
    pub proof fn lemma_scan_qname(self, colon: Option<int>)
        requires
            self.wf(),
            colon is Some ==> colon->0 < self.pos,
        ensures
            match self.scan_qname(colon) {
                Ok((c, found)) => {
                    &&& c.wf()
                    &&& c.follows(self)
                    &&& match found {
                        Some(p) => if colon is Some {
                            found == colon
                        } else {
                            self.pos <= p < c.pos && self.bytes[p] == 0x3A
                        },
                        None => colon is None,
                    }
                },
                Err(_) => true,
            },
        decreases self.remaining(),
    {
        if self.pos >= self.end {
        } else if self.curr() < 0x80 {
            crate::encoding::lemma_ascii_boundary(self.bytes, self.pos);
            if self.curr() == 0x3A {
                if colon is None {
                    self.advance(1).lemma_scan_qname(Some(self.pos));
                }
            } else if is_name_byte(self.curr()) {
                self.advance(1).lemma_scan_qname(colon);
            }
        } else if is_name_char(self.char()) {
            self.lemma_char_step();
            self.advance(char_width(self.char())).lemma_scan_qname(colon);
        }
    }

    /// A qualified name that was consumed: the stream stands behind it, its
    /// parts lie in it, and its local part is not empty.
    pub proof fn lemma_consume_qname(self)
        requires
            self.wf(),
        ensures
            match self.consume_qname() {
                Ok((c, prefix, local)) => {
                    &&& c.wf()
                    &&& c.follows(self)
                    &&& c.pos > self.pos
                    &&& prefix.start == self.pos
                    &&& prefix.end() <= local.start
                    &&& local.start < local.end()
                    &&& local.end() == c.pos
                    &&& prefix.lies_in(self.bytes, self.pos, c.pos)
                    &&& local.lies_in(self.bytes, self.pos, c.pos)
                },
                Err(_) => true,
            },
    {
        self.lemma_scan_qname(None);
        if let Ok((c, Some(p))) = self.scan_qname(None) {
            crate::encoding::lemma_ascii_boundary(self.bytes, p);
        }
    }

    /// What lies between two positions of a stream is a part of its text.
    pub proof fn lemma_slice_between(self, after: Cursor)
        requires
            self.wf(),
            after.succeeds(self),
        ensures
            after.slice_back(self.pos).lies_in(self.bytes, self.pos, after.pos),
            after.slice_back(self.pos) == Slice::of(self.bytes, self.pos, after.pos),
            after.slice_back(self.pos).start == self.pos,
            after.slice_back(self.pos).end() == after.pos,
    {
    }
}

impl Cursor {
    /// This stream is `before` at a later position, and well-formed.
    pub open spec fn succeeds(self, before: Cursor) -> bool {
        self.wf() && self.follows(before)
    }

    /// An ASCII byte that was consumed leaves the stream one byte further.
    pub proof fn lemma_consume_byte(self, b: u8)
        requires
            self.wf(),
            b < 0x80,
        ensures
            match self.consume_byte(b) {
                Ok(c) => c.succeeds(self) && c.pos == self.pos + 1 && self.curr() == b,
                Err(_) => true,
            },
            self.try_consume_byte(b).0.succeeds(self),
    {
        if !self.at_end() && self.curr() == b {
            crate::encoding::lemma_ascii_boundary(self.bytes, self.pos);
        }
    }

    /// Valid UTF-8 that was skipped leaves the stream behind it.
    pub proof fn lemma_skip_string(self, text: Seq<u8>)
        requires
            self.wf(),
            valid_utf8(text),
        ensures
            match self.skip_string(text) {
                Ok(c) => c.succeeds(self) && c.pos == self.pos + text.len(),
                Err(_) => true,
            },
    {
        if self.starts_with(text) {
            crate::encoding::lemma_match_boundary(self.bytes, self.pos, text);
        }
    }

    /// White space that was consumed leaves the stream further on.
    pub proof fn lemma_consume_spaces(self)
        requires
            self.wf(),
        ensures
            match self.consume_spaces() {
                Ok(c) => c.succeeds(self) && c.pos > self.pos,
                Err(_) => true,
            },
    {
        self.lemma_skip_spaces();
    }

    /// `=` that was consumed leaves the stream further on.
    pub proof fn lemma_consume_eq(self)
        requires
            self.wf(),
        ensures
            match self.consume_eq() {
                Ok(c) => c.succeeds(self) && c.pos > self.pos,
                Err(_) => true,
            },
    {
        self.lemma_skip_spaces();
        let c1 = self.skip_spaces();
        c1.lemma_consume_byte(0x3D);
        if c1.consume_byte(0x3D) is Ok {
            c1.advance(1).lemma_skip_spaces();
        }
    }

    /// A quote that was consumed is an ASCII byte, and the stream stands behind it.
    pub proof fn lemma_consume_quote(self)
        requires
            self.wf(),
        ensures
            match self.consume_quote() {
                Ok((c, q)) => c.succeeds(self) && c.pos == self.pos + 1 && (q == 0x27 || q == 0x22),
                Err(_) => true,
            },
    {
        if !self.at_end() && (self.curr() == 0x27 || self.curr() == 0x22) {
            crate::encoding::lemma_ascii_boundary(self.bytes, self.pos);
        }
    }

    /// Skipping bytes keeps the stream well-formed where only ASCII bytes
    /// are skipped, and where only ASCII bytes stop the skipping.
    pub proof fn lemma_skip_bytes_wf(self, pred: spec_fn(u8) -> bool)
        requires
            self.wf(),
            (forall|b: u8| #[trigger] pred(b) ==> b < 0x80) || (forall|b: u8|
                !#[trigger] pred(b) ==> b < 0x80),
        ensures
            self.skip_bytes_while(pred).succeeds(self),
    {
        self.lemma_skip_bytes_while(pred);
        let c = self.skip_bytes_while(pred);
        if forall|b: u8| #[trigger] pred(b) ==> b < 0x80 {
            if c.pos > self.pos {
                assert(pred(self.bytes[c.pos - 1]));
                crate::encoding::lemma_ascii_boundary(self.bytes, c.pos - 1);
            }
        } else {
            if !c.at_end() {
                assert(!pred(c.curr()));
                crate::encoding::lemma_ascii_boundary(self.bytes, c.pos);
            }
        }
    }

    /// Characters that were consumed: the stream stands behind them, at the
    /// end or before a character that `pred` does not hold of.
    pub proof fn lemma_consume_chars(self, pred: spec_fn(Cursor, char) -> bool)
        requires
            self.wf(),
        ensures
            match self.consume_chars(pred) {
                Ok((c, text)) => {
                    &&& c.succeeds(self)
                    &&& text == Slice::of(self.bytes, self.pos, c.pos)
                    &&& (c.at_end() || !pred(c, c.char()))
                    &&& (!self.at_end() && is_xml_char(self.char()) && pred(self, self.char())
                        ==> c.pos > self.pos)
                },
                Err(_) => true,
            },
    {
        self.lemma_skip_chars_while(xml_chars(pred));
        if !self.at_end() && is_xml_char(self.char()) && pred(self, self.char()) {
            self.lemma_char_step();
            self.advance(char_width(self.char())).lemma_skip_chars_while(xml_chars(pred));
        }
    }
}

/// What is read up to an earlier end is read in the same way: a primitive
/// that stops at or before that end stops at the same place when the
/// stream ends there.
impl Cursor {
    pub proof fn lemma_until_starts_with(self, text: Seq<u8>, e: int)
        requires
            e <= self.end,
        ensures
            self.until(e).starts_with(text) ==> self.starts_with(text),
            self.starts_with(text) && self.pos + text.len() <= e ==> self.until(e).starts_with(
                text,
            ),
    {
    }

    pub proof fn lemma_until_skip_bytes(self, pred: spec_fn(u8) -> bool, e: int)
        requires
            self.pos <= self.end,
            self.skip_bytes_while(pred).pos <= e <= self.end,
        ensures
            self.until(e).skip_bytes_while(pred) == self.skip_bytes_while(pred).until(e),
        decreases self.remaining(),
    {
        if self.pos < self.end && pred(self.curr()) {
            self.advance(1).lemma_skip_bytes_while(pred);
            self.advance(1).lemma_until_skip_bytes(pred, e);
            assert(self.until(e).advance(1) == self.advance(1).until(e));
        }
    }

    pub proof fn lemma_until_skip_spaces(self, e: int)
        requires
            self.pos <= self.end,
            self.skip_spaces().pos <= e <= self.end,
        ensures
            self.until(e).skip_spaces() == self.skip_spaces().until(e),
    {
        self.lemma_until_skip_bytes(space_bytes(), e);
    }

    pub proof fn lemma_until_skip_chars(self, pred: spec_fn(Cursor, char) -> bool, e: int)
        requires
            self.wf(),
            self.skip_chars_while(pred).pos <= e <= self.end,
            forall|x: Cursor, ch: char|
                x.follows(self) && x.pos < self.skip_chars_while(pred).pos && #[trigger] pred(x, ch)
                    ==> pred(x.until(e), ch),
            self.skip_chars_while(pred).pos == e || !pred(
                self.skip_chars_while(pred).until(e),
                self.skip_chars_while(pred).char(),
            ),
        ensures
            self.until(e).skip_chars_while(pred) == self.skip_chars_while(pred).until(e),
        decreases self.remaining(),
    {
        if self.pos < self.end && pred(self, self.char()) {
            self.lemma_char_step();
            let next = self.advance(char_width(self.char()));
            next.lemma_skip_chars_while(pred);
            assert(self.follows(self));
            assert(pred(self.until(e), self.char()));
            assert forall|x: Cursor, ch: char|
                x.follows(next) && x.pos < next.skip_chars_while(pred).pos && #[trigger] pred(
                    x,
                    ch,
                ) implies pred(x.until(e), ch) by {
                assert(x.follows(self));
            }
            next.lemma_until_skip_chars(pred, e);
            assert(self.until(e).advance(char_width(self.char())) == next.until(e));
        }
    }

    pub proof fn lemma_until_consume_chars(self, pred: spec_fn(Cursor, char) -> bool, e: int)
        requires
            self.wf(),
            self.consume_chars(pred) is Ok,
            self.consume_chars(pred)->Ok_0.0.pos <= e <= self.end,
            forall|x: Cursor, ch: char|
                x.follows(self) && #[trigger] pred(x, ch) ==> pred(x.until(e), ch),
            self.consume_chars(pred)->Ok_0.0.pos == e || !pred(
                self.consume_chars(pred)->Ok_0.0.until(e),
                self.consume_chars(pred)->Ok_0.0.char(),
            ),
        ensures
            self.until(e).consume_chars(pred) == Ok::<(Cursor, Slice), StreamFault>(
                (self.consume_chars(pred)->Ok_0.0.until(e), self.consume_chars(pred)->Ok_0.1),
            ),
    {
        let wrapped = xml_chars(pred);
        self.lemma_skip_chars_while(wrapped);
        self.lemma_until_skip_chars(wrapped, e);
    }

    pub proof fn lemma_until_consume_byte(self, b: u8, e: int)
        requires
            self.consume_byte(b) is Ok,
            self.pos + 1 <= e <= self.end,
        ensures
            self.until(e).consume_byte(b) == Ok::<Cursor, StreamFault>(
                self.consume_byte(b)->Ok_0.until(e),
            ),
    {
    }

    pub proof fn lemma_until_try_consume_byte(self, b: u8, e: int)
        requires
            self.try_consume_byte(b).0.pos <= e <= self.end,
        ensures
            self.until(e).try_consume_byte(b) == (
                self.try_consume_byte(b).0.until(e),
                self.try_consume_byte(b).1,
            ),
    {
    }

    pub proof fn lemma_until_skip_string(self, text: Seq<u8>, e: int)
        requires
            self.skip_string(text) is Ok,
            self.pos + text.len() <= e <= self.end,
        ensures
            self.until(e).skip_string(text) == Ok::<Cursor, StreamFault>(
                self.skip_string(text)->Ok_0.until(e),
            ),
    {
    }

    pub proof fn lemma_until_consume_spaces(self, e: int)
        requires
            self.consume_spaces() is Ok,
            self.consume_spaces()->Ok_0.pos <= e <= self.end,
        ensures
            self.until(e).consume_spaces() == Ok::<Cursor, StreamFault>(
                self.consume_spaces()->Ok_0.until(e),
            ),
    {
        self.advance(1).lemma_skip_bytes_while(space_bytes());
        self.lemma_until_skip_spaces(e);
    }

    pub proof fn lemma_until_consume_eq(self, e: int)
        requires
            self.pos <= self.end,
            self.consume_eq() is Ok,
            self.consume_eq()->Ok_0.pos <= e <= self.end,
        ensures
            self.until(e).consume_eq() == Ok::<Cursor, StreamFault>(
                self.consume_eq()->Ok_0.until(e),
            ),
    {
        self.lemma_skip_bytes_while(space_bytes());
        let c1 = self.skip_spaces();
        let c2 = c1.advance(1);
        c2.lemma_skip_bytes_while(space_bytes());
        self.lemma_until_skip_spaces(e);
        c2.lemma_until_skip_spaces(e);
        assert(c1.until(e).advance(1) == c2.until(e));
    }

    pub proof fn lemma_until_consume_quote(self, e: int)
        requires
            self.consume_quote() is Ok,
            self.pos + 1 <= e <= self.end,
        ensures
            self.until(e).consume_quote() == Ok::<(Cursor, u8), StreamFault>(
                (self.consume_quote()->Ok_0.0.until(e), self.consume_quote()->Ok_0.1),
            ),
    {
    }

    pub proof fn lemma_until_skip_name(self, e: int)
        requires
            self.wf(),
            self.skip_name() is Ok,
            self.skip_name()->Ok_0.pos <= e <= self.end,
        ensures
            self.until(e).skip_name() == Ok::<Cursor, StreamFault>(
                self.skip_name()->Ok_0.until(e),
            ),
    {
        if !self.at_end() {
            self.lemma_char_step();
            let next = self.advance(char_width(self.char()));
            next.lemma_skip_chars_while(name_chars());
            next.lemma_until_skip_chars(name_chars(), e);
            assert(self.until(e).advance(char_width(self.char())) == next.until(e));
        }
    }

    pub proof fn lemma_until_consume_name(self, e: int)
        requires
            self.wf(),
            self.consume_name() is Ok,
            self.consume_name()->Ok_0.0.pos <= e <= self.end,
        ensures
            self.until(e).consume_name() == Ok::<(Cursor, Slice), StreamFault>(
                (self.consume_name()->Ok_0.0.until(e), self.consume_name()->Ok_0.1),
            ),
    {
        self.lemma_until_skip_name(e);
    }

    pub proof fn lemma_until_scan_qname(self, colon: Option<int>, e: int)
        requires
            self.wf(),
            colon is Some ==> colon->0 < self.pos,
            self.scan_qname(colon) is Ok,
            self.scan_qname(colon)->Ok_0.0.pos <= e <= self.end,
        ensures
            self.until(e).scan_qname(colon) == Ok::<(Cursor, Option<int>), StreamFault>(
                (self.scan_qname(colon)->Ok_0.0.until(e), self.scan_qname(colon)->Ok_0.1),
            ),
        decreases self.remaining(),
    {
        if self.pos >= self.end {
        } else if self.curr() < 0x80 {
            crate::encoding::lemma_ascii_boundary(self.bytes, self.pos);
            let next = self.advance(1);
            if self.curr() == 0x3A {
                if colon is None {
                    next.lemma_scan_qname(Some(self.pos));
                    next.lemma_until_scan_qname(Some(self.pos), e);
                    assert(self.until(e).advance(1) == next.until(e));
                }
            } else if is_name_byte(self.curr()) {
                next.lemma_scan_qname(colon);
                next.lemma_until_scan_qname(colon, e);
                assert(self.until(e).advance(1) == next.until(e));
            }
        } else if is_name_char(self.char()) {
            self.lemma_char_step();
            let next = self.advance(char_width(self.char()));
            next.lemma_scan_qname(colon);
            next.lemma_until_scan_qname(colon, e);
            assert(self.until(e).advance(char_width(self.char())) == next.until(e));
        }
    }

    pub proof fn lemma_until_consume_qname(self, e: int)
        requires
            self.wf(),
            self.consume_qname() is Ok,
            self.consume_qname()->Ok_0.0.pos <= e <= self.end,
        ensures
            self.until(e).consume_qname() == Ok::<(Cursor, Slice, Slice), StreamFault>(
                (
                    self.consume_qname()->Ok_0.0.until(e),
                    self.consume_qname()->Ok_0.1,
                    self.consume_qname()->Ok_0.2,
                ),
            ),
    {
        self.lemma_until_scan_qname(None, e);
    }
}

impl Cursor {
    /// An ASCII byte that differs from every character that is skipped is
    /// none of the bytes that are skipped.
    pub proof fn lemma_skipped_bytes_differ(self, pred: spec_fn(Cursor, char) -> bool, b: u8)
        requires
            self.wf(),
            b < 0x80,
            forall|x: Cursor, ch: char| #[trigger] pred(x, ch) ==> ch != (b as char),
        ensures
            forall|i: int|
                self.pos <= i < self.skip_chars_while(pred).pos ==> #[trigger] self.bytes[i] != b,
        decreases self.remaining(),
    {
        if self.pos < self.end && pred(self, self.char()) {
            crate::encoding::lemma_char_at(self.bytes, self.pos);
            self.lemma_char_step();
            char_is_scalar(self.char());
            char_u32_cast(self.char(), self.char() as u32);
            let next = self.advance(char_width(self.char()));
            next.lemma_skipped_bytes_differ(pred, b);
            assert forall|i: int|
                self.pos <= i < self.skip_chars_while(pred).pos implies #[trigger] self.bytes[i]
                != b by {
                if i == self.pos {
                } else if i < next.pos {
                    assert(is_continuation_byte(self.bytes[i]));
                } else {
                    assert(next.bytes[i] != b);
                }
            }
        }
    }
}


} // verus!
