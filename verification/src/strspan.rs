//! A string slice that remembers where in the source text it stands.

use vstd::prelude::*;
use vstd::string::StringSliceAdditionalSpecFns;
use vstd::utf8::*;
use crate::encoding::{byte_len, is_boundary, lemma_boundary_char_boundary};
use core::ops::Range;

verus! {

/// What a `StrSpan` stands for: a position and the bytes found there.
pub struct Slice {
    /// The position of the first byte.
    pub start: int,
    /// The bytes of the slice: valid UTF-8.
    pub bytes: Seq<u8>,
}

impl Slice {
    /// The position after the last byte.
    pub open spec fn end(self) -> int {
        self.start + self.bytes.len()
    }

    /// The characters of the slice.
    pub open spec fn text(self) -> Seq<char> {
        decode_utf8(self.bytes)
    }

    /// The slice is the part of `bytes` between two character boundaries
    /// that lie between `lo` and `hi`.
    pub open spec fn lies_in(self, bytes: Seq<u8>, lo: int, hi: int) -> bool {
        &&& lo <= self.start <= self.end() <= hi
        &&& self == Slice::of(bytes, self.start, self.end())
        &&& is_boundary(bytes, self.start)
        &&& is_boundary(bytes, self.end())
    }

    /// The slice of `bytes` from `start` to `end`.
    pub open spec fn of(bytes: Seq<u8>, start: int, end: int) -> Slice {
        Slice { start, bytes: bytes.subrange(start, end) }
    }
}

/// A string slice.
///
/// Like `&str`, but also contains the position in the input XML
/// from which it was parsed.
#[must_use]
#[derive(Clone, Copy, PartialEq, Eq, Hash, Debug)]
pub struct StrSpan<'a> {
    text: &'a str,
    start: usize,
}

impl<'a> View for StrSpan<'a> {
    type V = Slice;

    closed spec fn view(&self) -> Slice {
        Slice { start: self.start as int, bytes: self.text.spec_bytes() }
    }
}

impl<'a> From<&'a str> for StrSpan<'a> {
    #[inline]
    fn from(text: &'a str) -> (r: Self)
        ensures
            r@.start == 0,
            r@.bytes == text.spec_bytes(),
    {
        let _ = byte_len(text);
        StrSpan { text, start: 0 }
    }
}

impl<'a> vstd::std_specs::convert::FromSpecImpl<&'a str> for StrSpan<'a> {
    open spec fn obeys_from_spec() -> bool {
        true
    }

    open spec fn from_spec(text: &'a str) -> Self {
        StrSpan::of_text(text)
    }
}

impl<'a> StrSpan<'a> {
    #[verifier::type_invariant]
    spec fn fits(self) -> bool {
        self.start + self.text.spec_bytes().len() <= usize::MAX
    }

    /// The span that covers the whole of `text`.
    pub closed spec fn of_text(text: &'a str) -> Self {
        StrSpan { text, start: 0 }
    }

    /// Every span holds valid UTF-8.
    pub proof fn lemma_valid(&self)
        ensures
            valid_utf8(self@.bytes),
            0 <= self@.start,
    {
        encode_utf8_valid_utf8(self.text@);
    }

    /// Constructs a new `StrSpan` from substring.
    #[inline]
    pub(crate) fn from_substr(text: &'a str, start: usize, end: usize) -> (r: StrSpan<'a>)
        requires
            start <= end <= text.spec_bytes().len(),
            is_boundary(text.spec_bytes(), start as int),
            is_boundary(text.spec_bytes(), end as int),
        ensures
            r@ == Slice::of(text.spec_bytes(), start as int, end as int),
    {
        proof {
            encode_utf8_valid_utf8(text@);
            lemma_boundary_char_boundary(text.spec_bytes(), end as int);
        }
        let (head, _) = text.split_at(end);
        proof {
            encode_utf8_valid_utf8(head@);
            lemma_boundary_char_boundary(head.spec_bytes(), start as int);
        }
        let (_, part) = head.split_at(start);
        assert(part.spec_bytes() =~= text.spec_bytes().subrange(start as int, end as int));
        StrSpan { text: part, start }
    }

    /// Returns the start position of the span.
    #[inline]
    pub fn start(&self) -> (r: usize)
        ensures
            r == self@.start,
    {
        self.start
    }

    /// Returns the end position of the span.
    #[inline]
    pub fn end(&self) -> (r: usize)
        ensures
            r == self@.end(),
    {
        proof {
            use_type_invariant(self);
        }
        self.start + byte_len(self.text)
    }

    /// Returns the range of the span.
    #[inline]
    pub fn range(&self) -> (r: Range<usize>)
        ensures
            r.start == self@.start,
            r.end == self@.end(),
    {
        self.start..self.end()
    }

    /// Returns the span as a string slice
    #[inline]
    pub fn as_str(&self) -> (r: &'a str)
        ensures
            r.spec_bytes() == self@.bytes,
            r@ == self@.text(),
    {
        proof {
            encode_utf8_decode_utf8(self.text@);
        }
        self.text
    }

    /// Returns the length of the span in bytes.
    #[inline]
    pub fn len(&self) -> (r: usize)
        ensures
            r == self@.bytes.len(),
    {
        byte_len(self.text)
    }

    /// Checks that the span holds no text.
    #[inline]
    pub fn is_empty(&self) -> (r: bool)
        ensures
            r == (self@.bytes.len() == 0),
    {
        byte_len(self.text) == 0
    }

    /// Returns an underling string region as `StrSpan`.
    #[inline]
    pub(crate) fn slice_region(&self, start: usize, end: usize) -> (r: StrSpan<'a>)
        requires
            start <= end <= self@.bytes.len(),
            is_boundary(self@.bytes, start as int),
            is_boundary(self@.bytes, end as int),
        ensures
            r@ == Slice::of(self@.bytes, start as int, end as int),
    {
        StrSpan::from_substr(self.text, start, end)
    }
}

} // verus!
