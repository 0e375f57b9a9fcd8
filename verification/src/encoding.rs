//! Character boundaries and single characters in UTF-8 text, stated over bytes.

use vstd::prelude::*;
use vstd::string::StringSliceAdditionalSpecFns;
use vstd::utf8::*;

verus! {

/// `i` is the start of a character of `bytes`, or its end.
pub open spec fn is_boundary(bytes: Seq<u8>, i: int) -> bool {
    0 <= i <= bytes.len() && (i == bytes.len() || !is_continuation_byte(bytes[i]))
}

/// The bytes from `i` on.
pub open spec fn tail(bytes: Seq<u8>, i: int) -> Seq<u8> {
    bytes.subrange(i, bytes.len() as int)
}

/// The character whose encoding starts at `i`.
pub open spec fn char_at(bytes: Seq<u8>, i: int) -> char {
    decode_first_scalar(tail(bytes, i)) as char
}

/// The number of bytes that the encoding of `c` takes.
pub open spec fn char_width(c: char) -> int {
    let u = c as u32;
    if u < 0x80 {
        1
    } else if u < 0x800 {
        2
    } else if u < 0x10000 {
        3
    } else {
        4
    }
}

/// The ASCII bytes of a text of ASCII characters.
pub open spec fn ascii(text: Seq<char>) -> Seq<u8> {
    Seq::new(text.len(), |i: int| text[i] as u8)
}

/// All bytes are below 128.
pub open spec fn is_ascii_bytes(bytes: Seq<u8>) -> bool {
    forall|i: int| 0 <= i < bytes.len() ==> bytes[i] < 0x80
}

/// The length of a text in bytes.
pub fn byte_len(text: &str) -> (n: usize)
    ensures
        n == text.spec_bytes().len(),
{
    text.as_bytes().len()
}

/// In valid UTF-8 the boundaries are what vstd calls character boundaries.
pub proof fn lemma_boundary_char_boundary(bytes: Seq<u8>, i: int)
    requires
        valid_utf8(bytes),
    ensures
        is_boundary(bytes, i) == is_char_boundary(bytes, i),
{
    if 0 <= i < bytes.len() {
        is_char_boundary_iff_not_is_continuation_byte(bytes, i);
    } else if i == bytes.len() {
        is_char_boundary_start_end_of_seq(bytes);
    } else {
    }
}

proof fn lemma_low_bits(u: u32)
    by (bit_vector)
    requires
        u < 0x80,
    ensures
        (u & 0x7F) as u8 == u as u8,
        (u & 0x7F) == u,
{
}

/// The character at a boundary: it is validly encoded, it ends on a
/// boundary, and it is an ASCII character exactly if its first byte is one.
pub proof fn lemma_char_at(bytes: Seq<u8>, i: int)
    requires
        valid_utf8(bytes),
        is_boundary(bytes, i),
        i < bytes.len(),
    ensures
        valid_first_scalar(tail(bytes, i)),
        valid_utf8(tail(bytes, i)),
        length_of_first_scalar(tail(bytes, i)) == char_width(char_at(bytes, i)),
        i + char_width(char_at(bytes, i)) <= bytes.len(),
        is_boundary(bytes, i + char_width(char_at(bytes, i))),
        forall|j: int|
            i < j < i + char_width(char_at(bytes, i)) ==> is_continuation_byte(#[trigger] bytes[j]),
        bytes[i] < 0x80 <==> (char_at(bytes, i) as u32) < 0x80,
        bytes[i] < 0x80 ==> char_at(bytes, i) as u32 == bytes[i] as u32,
{
    let t = tail(bytes, i);
    lemma_boundary_char_boundary(bytes, i);
    valid_utf8_split(bytes, i);
    assert(t.len() > 0);
    assert(valid_first_scalar(t));
    let w = length_of_first_scalar(t);
    let rest = pop_first_scalar(t);
    assert(valid_utf8(rest));
    let c = char_at(bytes, i);
    decode_utf8_first_scalar(t);
    char_is_scalar(c);
    assert(take_first_scalar(t).len() == w);
    assert(encode_scalar(c as u32).len() == w);
    assert(w == char_width(c));
    assert(forall|j: int| 0 <= j < t.len() ==> t[j] == bytes[i + j]);
    if i + w < bytes.len() {
        assert(rest.len() > 0);
        assert(valid_first_scalar(rest));
        assert(rest[0] == bytes[i + w]);
    }
    assert forall|j: int| i < j < i + w implies is_continuation_byte(#[trigger] bytes[j]) by {
        assert(bytes[j] == t[j - i]);
    }
    if (c as u32) < 0x80 {
        lemma_low_bits(c as u32);
        assert(encode_scalar(c as u32)[0] == t[0]);
    }
}

/// An ASCII byte is a character of its own.
pub proof fn lemma_ascii_boundary(bytes: Seq<u8>, i: int)
    requires
        valid_utf8(bytes),
        0 <= i < bytes.len(),
        bytes[i] < 0x80,
    ensures
        is_boundary(bytes, i),
        is_boundary(bytes, i + 1),
        char_at(bytes, i) as u32 == bytes[i] as u32,
        char_width(char_at(bytes, i)) == 1,
{
    lemma_char_at(bytes, i);
}

/// After a run of ASCII bytes that starts on a boundary comes a boundary.
pub proof fn lemma_ascii_run_boundary(bytes: Seq<u8>, i: int, n: int)
    requires
        valid_utf8(bytes),
        is_boundary(bytes, i),
        0 <= n,
        i + n <= bytes.len(),
        forall|j: int| i <= j < i + n ==> bytes[j] < 0x80,
    ensures
        is_boundary(bytes, i + n),
{
    if n > 0 {
        lemma_ascii_boundary(bytes, i + n - 1);
    }
}

/// Where valid UTF-8 text stands in valid UTF-8 text and starts on a
/// boundary, it ends on one.
pub proof fn lemma_match_boundary(bytes: Seq<u8>, i: int, text: Seq<u8>)
    requires
        valid_utf8(bytes),
        valid_utf8(text),
        is_boundary(bytes, i),
        i + text.len() <= bytes.len(),
        bytes.subrange(i, i + text.len()) == text,
    ensures
        is_boundary(bytes, i + text.len()),
    decreases text.len(),
{
    if text.len() > 0 {
        let t = tail(bytes, i);
        lemma_char_at(bytes, i);
        assert(valid_first_scalar(text));
        let w = length_of_first_scalar(text);
        assert(text[0] == bytes.subrange(i, i + text.len())[0]);
        assert(t[0] == text[0]);
        assert(w == length_of_first_scalar(t));
        let rest = pop_first_scalar(text);
        assert(rest =~= bytes.subrange(i + w, i + w + rest.len()));
        lemma_match_boundary(bytes, i + w, rest);
    }
}

/// The bytes of an ASCII text are valid UTF-8, one byte for each character.
pub proof fn lemma_ascii_text(text: Seq<char>)
    requires
        is_ascii_chars(text),
    ensures
        encode_utf8(text) == ascii(text),
        is_ascii_bytes(ascii(text)),
        ascii(text).len() == text.len(),
{
    is_ascii_chars_encode_utf8(text);
    assert(encode_utf8(text) =~= ascii(text));
    assert forall|i: int| 0 <= i < ascii(text).len() implies ascii(text)[i] < 0x80 by {
        let c = text[i];
        assert('\0' <= c <= '\u{7f}');
    }
}

} // verus!
