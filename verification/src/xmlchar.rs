//! Character classes of XML 1.0.

use vstd::prelude::*;

verus! {

/// `[0-9]`
pub open spec fn is_digit_byte(b: u8) -> bool {
    0x30 <= b <= 0x39
}

/// `[0-9A-Fa-f]`
pub open spec fn is_hex_digit_byte(b: u8) -> bool {
    (0x30 <= b <= 0x39) || (0x41 <= b <= 0x46) || (0x61 <= b <= 0x66)
}

/// The four XML white space bytes: space, tab, line feed, carriage return.
pub open spec fn is_space_byte(b: u8) -> bool {
    b == 0x20 || b == 0x09 || b == 0x0A || b == 0x0D
}

/// `[A-Za-z]`
pub open spec fn is_letter_byte(b: u8) -> bool {
    (0x41 <= b <= 0x5A) || (0x61 <= b <= 0x7A)
}

/// The ASCII part of the `NameChar` production: letters, digits, `:`, `_`, `-`, `.`.
pub open spec fn is_name_byte(b: u8) -> bool {
    is_letter_byte(b) || is_digit_byte(b) || b == 0x3A || b == 0x5F || b == 0x2D || b == 0x2E
}

/// The `NameStartChar` production.
pub open spec fn is_name_start_char(c: char) -> bool {
    let u = c as u32;
    ||| u == 0x3A
    ||| u == 0x5F
    ||| 0x41 <= u <= 0x5A
    ||| 0x61 <= u <= 0x7A
    ||| 0xC0 <= u <= 0xD6
    ||| 0xD8 <= u <= 0xF6
    ||| 0xF8 <= u <= 0x2FF
    ||| 0x370 <= u <= 0x37D
    ||| 0x37F <= u <= 0x1FFF
    ||| 0x200C <= u <= 0x200D
    ||| 0x2070 <= u <= 0x218F
    ||| 0x2C00 <= u <= 0x2FEF
    ||| 0x3001 <= u <= 0xD7FF
    ||| 0xF900 <= u <= 0xFDCF
    ||| 0xFDF0 <= u <= 0xFFFD
    ||| 0x10000 <= u <= 0xEFFFF
}

/// The `NameChar` production: `NameStartChar` and `-`, `.`, digits, U+00B7,
/// U+0300..U+036F, U+203F..U+2040.
pub open spec fn is_name_char(c: char) -> bool {
    let u = c as u32;
    ||| is_name_start_char(c)
    ||| u == 0x2D
    ||| u == 0x2E
    ||| 0x30 <= u <= 0x39
    ||| u == 0xB7
    ||| 0x300 <= u <= 0x36F
    ||| 0x203F <= u <= 0x2040
}

/// The `Char` production.
pub open spec fn is_xml_char(c: char) -> bool {
    let u = c as u32;
    ||| u == 0x9
    ||| u == 0xA
    ||| u == 0xD
    ||| 0x20 <= u <= 0xD7FF
    ||| 0xE000 <= u <= 0xFFFD
    ||| 0x10000 <= u <= 0x10FFFF
}

/// Character tests of the XML grammar.
pub trait XmlCharExt {
    /// Checks if the value is within the `NameStartChar` range.
    fn is_xml_name_start(&self) -> bool;

    /// Checks if the value is within the `NameChar` range.
    fn is_xml_name(&self) -> bool;

    /// Checks if the value is within the `Char` range.
    fn is_xml_char(&self) -> bool;
}

impl XmlCharExt for char {
    #[inline]
    fn is_xml_name_start(&self) -> (r: bool)
        ensures
            r == is_name_start_char(*self),
    {
        let c: char = *self;
        let u: u32 = c as u32;
        // ASCII first.
        if u <= 128 {
            return (0x41 <= u && u <= 0x5A) || (0x61 <= u && u <= 0x7A) || u == 0x3A || u == 0x5F;
        }
        (0xC0 <= u && u <= 0xD6) || (0xD8 <= u && u <= 0xF6) || (0xF8 <= u && u <= 0x2FF) || (0x370
            <= u && u <= 0x37D) || (0x37F <= u && u <= 0x1FFF) || (0x200C <= u && u <= 0x200D) || (
        0x2070 <= u && u <= 0x218F) || (0x2C00 <= u && u <= 0x2FEF) || (0x3001 <= u && u <= 0xD7FF)
            || (0xF900 <= u && u <= 0xFDCF) || (0xFDF0 <= u && u <= 0xFFFD) || (0x10000 <= u && u
            <= 0xEFFFF)
    }

    #[inline]
    fn is_xml_name(&self) -> (r: bool)
        ensures
            r == is_name_char(*self),
    {
        let c: char = *self;
        let u: u32 = c as u32;
        // ASCII first.
        if u <= 128 {
            let b: u8 = u as u8;
            return b.is_xml_name();
        }
        u == 0xB7 || (0xC0 <= u && u <= 0xD6) || (0xD8 <= u && u <= 0xF6) || (0xF8 <= u && u
            <= 0x2FF) || (0x300 <= u && u <= 0x36F) || (0x370 <= u && u <= 0x37D) || (0x37F <= u
            && u <= 0x1FFF) || (0x200C <= u && u <= 0x200D) || (0x203F <= u && u <= 0x2040) || (
        0x2070 <= u && u <= 0x218F) || (0x2C00 <= u && u <= 0x2FEF) || (0x3001 <= u && u <= 0xD7FF)
            || (0xF900 <= u && u <= 0xFDCF) || (0xFDF0 <= u && u <= 0xFFFD) || (0x10000 <= u && u
            <= 0xEFFFF)
    }

    #[inline]
    fn is_xml_char(&self) -> (r: bool)
        ensures
            r == is_xml_char(*self),
    {
        let c: char = *self;
        let u: u32 = c as u32;
        // A `char` is never a surrogate, so only the control characters and the
        // two non-characters at the end of the basic plane are left to exclude.
        proof {
            vstd::utf8::char_is_scalar(c);
        }
        if u < 0x20 {
            return u == 0x09 || u == 0x0A || u == 0x0D;
        }
        u != 0xFFFF && u != 0xFFFE
    }
}

/// Byte tests of the XML grammar.
pub trait XmlByteExt {
    /// Checks if byte is a digit: `[0-9]`.
    fn is_xml_digit(&self) -> bool;

    /// Checks if byte is a hex digit: `[0-9A-Fa-f]`.
    fn is_xml_hex_digit(&self) -> bool;

    /// Checks if byte is a space: `[ \r\n\t]`.
    fn is_xml_space(&self) -> bool;

    /// Checks if byte is an ASCII letter: `[A-Za-z]`.
    fn is_xml_letter(&self) -> bool;

    /// Checks if byte is within the ASCII part of the `NameChar` range.
    fn is_xml_name(&self) -> bool;
}

impl XmlByteExt for u8 {
    #[inline]
    fn is_xml_digit(&self) -> (r: bool)
        ensures
            r == is_digit_byte(*self),
    {
        let b: u8 = *self;
        0x30 <= b && b <= 0x39
    }

    #[inline]
    fn is_xml_hex_digit(&self) -> (r: bool)
        ensures
            r == is_hex_digit_byte(*self),
    {
        let b: u8 = *self;
        (0x30 <= b && b <= 0x39) || (0x41 <= b && b <= 0x46) || (0x61 <= b && b <= 0x66)
    }

    #[inline]
    fn is_xml_space(&self) -> (r: bool)
        ensures
            r == is_space_byte(*self),
    {
        let b: u8 = *self;
        b == 0x20 || b == 0x09 || b == 0x0A || b == 0x0D
    }

    #[inline]
    fn is_xml_letter(&self) -> (r: bool)
        ensures
            r == is_letter_byte(*self),
    {
        let b: u8 = *self;
        (0x41 <= b && b <= 0x5A) || (0x61 <= b && b <= 0x7A)
    }

    #[inline]
    fn is_xml_name(&self) -> (r: bool)
        ensures
            r == is_name_byte(*self),
    {
        let b: u8 = *self;
        (0x41 <= b && b <= 0x5A) || (0x61 <= b && b <= 0x7A) || (0x30 <= b && b <= 0x39) || b
            == 0x3A || b == 0x5F || b == 0x2D || b == 0x2E
    }
}

} // verus!
