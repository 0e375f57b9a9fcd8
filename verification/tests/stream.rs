use xmlparser::{Reference, Stream, StrSpan, StreamError, TextPos};

#[test]
fn starts_with_after_advance() {
    let mut s = Stream::from("Some text.");
    s.advance(5);
    assert_eq!(s.starts_with(b"text"), true);
    assert_eq!(s.starts_with(b"long"), false);
    assert_eq!(s.starts_with(b"text. and more"), false);
    assert_eq!(s.starts_with(b""), true);
}

#[test]
fn starts_with_stops_at_the_end_of_a_fragment() {
    let s = Stream::from_substr("abcdef", 1..3);
    assert!(s.starts_with(b"bc"));
    assert!(!s.starts_with(b"bcd"));
}

#[test]
fn consume_byte_in_order() {
    let mut s = Stream::from("Some text.");
    assert!(s.consume_byte(b'S').is_ok());
    assert!(s.consume_byte(b'o').is_ok());
    assert!(s.consume_byte(b'm').is_ok());
    assert_eq!(
        s.consume_byte(b'q'),
        Err(StreamError::InvalidChar(b'e', b'q', TextPos::new(1, 4)))
    );
    assert_eq!(s.pos(), 3);
}

#[test]
fn consume_byte_at_end() {
    let mut s = Stream::from("");
    assert_eq!(s.consume_byte(b'a'), Err(StreamError::UnexpectedEndOfStream));
}

#[test]
fn try_consume_byte_moves_only_on_match() {
    let mut s = Stream::from("ab");
    assert!(!s.try_consume_byte(b'b'));
    assert_eq!(s.pos(), 0);
    assert!(s.try_consume_byte(b'a'));
    assert_eq!(s.pos(), 1);
    assert!(s.try_consume_byte(b'b'));
    assert!(!s.try_consume_byte(b'b'));
    assert!(s.at_end());
}

#[test]
fn skip_string_skips_what_stands_there() {
    let mut s = Stream::from("version='1.0'");
    assert_eq!(s.skip_string(b"version"), Ok(()));
    assert_eq!(s.pos(), 7);
}

#[test]
fn skip_string_names_what_it_expected() {
    let mut s = Stream::from("a\nbcd");
    s.advance(2);
    assert_eq!(
        s.skip_string(b"bce"),
        Err(StreamError::InvalidString("bce", TextPos::new(2, 1)))
    );
    assert_eq!(s.pos(), 2);
}

#[test]
fn skip_string_with_text_beyond_ascii() {
    let mut s = Stream::from("жук!");
    assert_eq!(s.skip_string("жук".as_bytes()), Ok(()));
    assert_eq!(s.pos(), 6);
    assert_eq!(
        s.skip_string("жук".as_bytes()),
        Err(StreamError::InvalidString("жук", TextPos::new(1, 4)))
    );
}

#[test]
fn consume_bytes_by_predicate() {
    let mut s = Stream::from("Some text.");
    let span = s.consume_bytes(|_, c| c != b' ');
    assert_eq!(span.as_str(), "Some");
    assert_eq!(span.range(), 0..4);
    assert_eq!(s.pos(), 4);
    let none = s.consume_bytes(|_, c| c != b' ');
    assert_eq!(none.as_str(), "");
    assert_eq!(none.range(), 4..4);
}

#[test]
fn skip_bytes_sees_the_stream() {
    let mut s = Stream::from("aaab");
    s.skip_bytes(|s, _| s.pos() < 2);
    assert_eq!(s.pos(), 2);
    s.skip_bytes(|_, _| true);
    assert!(s.at_end());
}

#[test]
fn consume_chars_by_predicate() {
    let mut s = Stream::from("текст<");
    let span = s.consume_chars(|_, c| c != '<').unwrap();
    assert_eq!(span.as_str(), "текст");
    assert_eq!(span.range(), 0..10);
    assert_eq!(s.curr_byte(), Ok(b'<'));
}

#[test]
fn skip_chars_stops_at_a_character_that_is_no_xml_char() {
    let mut s = Stream::from("a\u{1}b");
    assert_eq!(
        s.skip_chars(|_, _| true),
        Err(StreamError::NonXmlChar('\u{1}', TextPos::new(1, 2)))
    );
    assert_eq!(s.pos(), 1);
}

#[test]
fn skip_chars_tests_the_xml_char_before_the_predicate() {
    let mut s = Stream::from("\u{FFFF}");
    assert_eq!(
        s.skip_chars(|_, _| false),
        Err(StreamError::NonXmlChar('\u{FFFF}', TextPos::new(1, 1)))
    );
}

#[test]
fn skip_chars_to_the_end() {
    let mut s = Stream::from("\t\r\n \u{D7FF}\u{E000}\u{FFFD}\u{10000}\u{10FFFF}");
    assert_eq!(s.skip_chars(|_, _| true), Ok(()));
    assert!(s.at_end());
}

#[test]
fn spaces() {
    let mut s = Stream::from(" \t\r\n x");
    assert!(s.starts_with_space());
    s.skip_spaces();
    assert_eq!(s.pos(), 5);
    assert!(!s.starts_with_space());
    s.skip_spaces();
    assert_eq!(s.pos(), 5);
    assert_eq!(
        s.consume_spaces(),
        Err(StreamError::InvalidSpace(b'x', TextPos::new(2, 2)))
    );
    s.advance(1);
    assert_eq!(s.consume_spaces(), Err(StreamError::UnexpectedEndOfStream));
    assert!(!s.starts_with_space());
}

#[test]
fn consume_spaces_takes_them_all() {
    let mut s = Stream::from("  a");
    assert_eq!(s.consume_spaces(), Ok(()));
    assert_eq!(s.pos(), 2);
}

#[test]
fn non_breaking_space_is_no_space() {
    let mut s = Stream::from("\u{A0}");
    assert!(!s.starts_with_space());
    s.skip_spaces();
    assert_eq!(s.pos(), 0);
}

#[test]
fn consume_eq_with_spaces() {
    let mut s = Stream::from(" \n= \t'v'");
    assert_eq!(s.consume_eq(), Ok(()));
    assert_eq!(s.pos(), 5);
}

#[test]
fn consume_eq_without_eq() {
    let mut s = Stream::from("  x");
    assert_eq!(
        s.consume_eq(),
        Err(StreamError::InvalidChar(b'x', b'=', TextPos::new(1, 3)))
    );
    assert_eq!(s.pos(), 2);
    let mut s = Stream::from("  ");
    assert_eq!(s.consume_eq(), Err(StreamError::UnexpectedEndOfStream));
}

#[test]
fn consume_quote_of_both_kinds() {
    let mut s = Stream::from("'\"x");
    assert_eq!(s.consume_quote(), Ok(b'\''));
    assert_eq!(s.consume_quote(), Ok(b'"'));
    assert_eq!(
        s.consume_quote(),
        Err(StreamError::InvalidQuote(b'x', TextPos::new(1, 3)))
    );
    assert_eq!(s.pos(), 2);
    s.advance(1);
    assert_eq!(s.consume_quote(), Err(StreamError::UnexpectedEndOfStream));
}

#[test]
fn consume_name_takes_name_chars() {
    let mut s = Stream::from("xml-stylesheet href");
    let name = s.consume_name().unwrap();
    assert_eq!(name.as_str(), "xml-stylesheet");
    assert_eq!(name.range(), 0..14);
}

#[test]
fn consume_name_beyond_ascii() {
    let mut s = Stream::from("_\u{B7}\u{300}é\u{203F} ");
    assert_eq!(s.consume_name().unwrap().as_str(), "_\u{B7}\u{300}é\u{203F}");
    let mut s = Stream::from("\u{B7}a");
    assert_eq!(s.consume_name(), Err(StreamError::InvalidName));
}

#[test]
fn consume_name_needs_a_name_start() {
    let mut s = Stream::from("1a");
    assert_eq!(s.consume_name(), Err(StreamError::InvalidName));
    assert_eq!(s.pos(), 0);
    let mut s = Stream::from("-a");
    assert_eq!(s.consume_name(), Err(StreamError::InvalidName));
    let mut s = Stream::from("");
    assert_eq!(s.consume_name(), Err(StreamError::InvalidName));
}

#[test]
fn skip_name_needs_a_name() {
    let mut s = Stream::from("");
    assert_eq!(s.skip_name(), Err(StreamError::InvalidName));
    assert_eq!(s.pos(), 0);
    let mut s = Stream::from("ab");
    s.advance(2);
    assert_eq!(s.skip_name(), Err(StreamError::InvalidName));
    assert_eq!(s.pos(), 2);
    let mut s = Stream::from_substr("abc", 1..1);
    assert_eq!(s.skip_name(), Err(StreamError::InvalidName));
    assert_eq!(s.consume_name(), Err(StreamError::InvalidName));
    let mut s = Stream::from("a.b c");
    assert_eq!(s.skip_name(), Ok(()));
    assert_eq!(s.pos(), 3);
    let mut s = Stream::from(".b");
    assert_eq!(s.skip_name(), Err(StreamError::InvalidName));
}

#[test]
fn consume_qname_with_prefix() {
    let mut s = Stream::from("svg:rect ");
    let (prefix, local) = s.consume_qname().unwrap();
    assert_eq!(prefix.as_str(), "svg");
    assert_eq!(prefix.range(), 0..3);
    assert_eq!(local.as_str(), "rect");
    assert_eq!(local.range(), 4..8);
    assert_eq!(s.pos(), 8);
}

#[test]
fn consume_qname_without_prefix() {
    let mut s = Stream::from("<rect/>");
    s.advance(1);
    let (prefix, local) = s.consume_qname().unwrap();
    assert_eq!(prefix.as_str(), "");
    assert_eq!(prefix.range(), 1..1);
    assert_eq!(local.as_str(), "rect");
    assert_eq!(local.range(), 1..5);
}

#[test]
fn consume_qname_with_leading_colon() {
    let mut s = Stream::from(":a>");
    let (prefix, local) = s.consume_qname().unwrap();
    assert_eq!(prefix.as_str(), "");
    assert_eq!(prefix.range(), 0..0);
    assert_eq!(local.as_str(), "a");
    assert_eq!(local.range(), 1..2);
}

#[test]
fn consume_qname_beyond_ascii() {
    let mut s = Stream::from("é:ü=");
    let (prefix, local) = s.consume_qname().unwrap();
    assert_eq!(prefix.as_str(), "é");
    assert_eq!(local.as_str(), "ü");
    assert_eq!(local.range(), 3..5);
    assert_eq!(s.curr_byte(), Ok(b'='));
}

#[test]
fn consume_qname_errors() {
    for text in ["a:b:c", "a:", "a:1", "1a", "-a:b", "", " a", "a::b", "\u{B7}:a"] {
        let mut s = Stream::from(text);
        assert_eq!(s.consume_qname(), Err(StreamError::InvalidName), "{:?}", text);
    }
}

#[test]
fn predefined_references() {
    for (text, c) in [
        ("&quot;", '"'),
        ("&amp;", '&'),
        ("&apos;", '\''),
        ("&lt;", '<'),
        ("&gt;", '>'),
    ] {
        let mut s = Stream::from(text);
        assert_eq!(s.consume_reference(), Ok(Reference::Char(c)));
        assert!(s.at_end());
    }
}

#[test]
fn entity_reference() {
    let mut s = Stream::from("&ref;text");
    assert_eq!(s.consume_reference(), Ok(Reference::Entity("ref")));
    assert_eq!(s.pos(), 5);
    let mut s = Stream::from("&amper;");
    assert_eq!(s.consume_reference(), Ok(Reference::Entity("amper")));
}

#[test]
fn numbered_references() {
    for (text, c) in [
        ("&#x20;", ' '),
        ("&#65;", 'A'),
        ("&#x41;", 'A'),
        ("&#xa;", '\n'),
        ("&#x9;", '\t'),
        ("&#0000000000000000065;", 'A'),
        ("&#x10FFFF;", '\u{10FFFF}'),
        ("&#1234;", '\u{4D2}'),
        ("&#xD800;", '\u{FFFD}'),
        ("&#x110000;", '\u{FFFD}'),
        ("&#4294967295;", '\u{FFFD}'),
        ("&#xfFfD;", '\u{FFFD}'),
    ] {
        let mut s = Stream::from(text);
        assert_eq!(s.consume_reference(), Ok(Reference::Char(c)), "{:?}", text);
        assert!(s.at_end());
    }
}

#[test]
fn invalid_references() {
    for text in [
        "", "amp;", "&", "&;", "&amp", "&amp ;", "&#;", "&#x;", "&#xG;", "&#12a;", "&#0;", "&#x1;",
        "&#xFFFE;", "&#xFFFF;", "&#4294967296;", "&#x100000000;", "&#X20;", "&# 20;", "&1a;",
        "&#-1;", "&#+1;",
    ] {
        let mut s = Stream::from(text);
        assert_eq!(s.consume_reference(), Err(StreamError::InvalidReference), "{:?}", text);
    }
}

#[test]
fn try_consume_reference_stays_on_failure() {
    let mut s = Stream::from("a&amp &lt;");
    assert_eq!(s.try_consume_reference(), None);
    assert_eq!(s.pos(), 0);
    s.advance(1);
    assert_eq!(s.try_consume_reference(), None);
    assert_eq!(s.pos(), 1);
    s.advance(5);
    assert_eq!(s.try_consume_reference(), Some(Reference::Char('<')));
    assert_eq!(s.pos(), 10);
    assert_eq!(s.try_consume_reference(), None);
}

#[test]
fn gen_text_pos_from_is_clamped() {
    let s = Stream::from("text");
    assert_eq!(s.gen_text_pos_from(2), TextPos::new(1, 3));
    assert_eq!(s.gen_text_pos_from(9999), TextPos::new(1, 5));
    assert_eq!(s.gen_text_pos_from(0), TextPos::new(1, 1));
}

#[test]
fn gen_text_pos_counts_rows_and_characters() {
    let text = "a\r\nжж\n\nxyz";
    let s = Stream::from(text);
    assert_eq!(s.gen_text_pos_from(1), TextPos::new(1, 2));
    assert_eq!(s.gen_text_pos_from(2), TextPos::new(1, 3));
    assert_eq!(s.gen_text_pos_from(3), TextPos::new(2, 1));
    assert_eq!(s.gen_text_pos_from(5), TextPos::new(2, 2));
    assert_eq!(s.gen_text_pos_from(7), TextPos::new(2, 3));
    assert_eq!(s.gen_text_pos_from(8), TextPos::new(3, 1));
    assert_eq!(s.gen_text_pos_from(9), TextPos::new(4, 1));
    assert_eq!(s.gen_text_pos_from(text.len()), TextPos::new(4, 4));
}

#[test]
fn gen_text_pos_does_not_depend_on_the_fragment() {
    let mut s = Stream::from_substr("ab\ncd", 3..4);
    assert_eq!(s.gen_text_pos(), TextPos::new(2, 1));
    s.advance(1);
    assert_eq!(s.gen_text_pos(), TextPos::new(2, 2));
    assert_eq!(s.gen_text_pos_from(5), TextPos::new(2, 3));
}

#[test]
fn slices() {
    let mut s = Stream::from("abcdef");
    s.advance(2);
    assert_eq!(s.slice_back(0).as_str(), "ab");
    assert_eq!(s.slice_back(1).range(), 1..2);
    assert_eq!(s.slice_back(2).as_str(), "");
    assert_eq!(s.slice_tail().as_str(), "cdef");
    assert_eq!(s.slice_tail().range(), 2..6);
    let f = Stream::from_substr("abcdef", 1..4);
    assert_eq!(f.slice_tail().as_str(), "bcd");
    assert_eq!(f.span().as_str(), "abcdef");
}

#[test]
fn positions() {
    let mut s = Stream::from("ab");
    assert_eq!(s.pos(), 0);
    assert!(!s.at_end());
    assert_eq!(s.curr_byte(), Ok(b'a'));
    assert_eq!(s.curr_byte_unchecked(), b'a');
    assert_eq!(s.next_byte(), Ok(b'b'));
    s.advance(1);
    assert_eq!(s.curr_byte(), Ok(b'b'));
    assert_eq!(s.next_byte(), Err(StreamError::UnexpectedEndOfStream));
    s.advance(1);
    assert!(s.at_end());
    assert_eq!(s.curr_byte(), Err(StreamError::UnexpectedEndOfStream));
    assert_eq!(s.next_byte(), Err(StreamError::UnexpectedEndOfStream));
    let mut s = Stream::from("abc");
    s.jump_to_end();
    assert_eq!(s.pos(), 3);
    assert!(s.at_end());
}

#[test]
fn next_byte_stops_at_the_end_of_a_fragment() {
    let s = Stream::from_substr("abc", 0..1);
    assert_eq!(s.curr_byte(), Ok(b'a'));
    assert_eq!(s.next_byte(), Err(StreamError::UnexpectedEndOfStream));
    let s = Stream::from_substr("abc", 1..1);
    assert!(s.at_end());
    assert_eq!(s.curr_byte(), Err(StreamError::UnexpectedEndOfStream));
}

#[test]
fn stream_over_a_span() {
    let mut outer = Stream::from("<a>text</a>");
    outer.advance(3);
    let span = outer.consume_bytes(|_, c| c != b'<');
    assert_eq!(span.range(), 3..7);
    let mut inner = Stream::from(span);
    assert_eq!(inner.pos(), 0);
    assert_eq!(inner.span().start(), 3);
    assert_eq!(inner.span().as_str(), "text");
    inner.advance(1);
    assert_eq!(inner.slice_tail().as_str(), "ext");
    assert_eq!(inner.slice_tail().range(), 1..4);
    inner.jump_to_end();
    assert_eq!(inner.pos(), 4);
}

#[test]
fn str_span_accessors() {
    let span = StrSpan::from("текст");
    assert_eq!(span.start(), 0);
    assert_eq!(span.end(), 10);
    assert_eq!(span.range(), 0..10);
    assert_eq!(span.as_str(), "текст");
    assert_eq!(span.len(), 10);
    assert!(!span.is_empty());
    assert!(StrSpan::from("").is_empty());
}

#[test]
fn consume_qname_stops_where_it_fails() {
    for (text, pos) in [("a:b:c", 3), ("a: ", 2), ("1a ", 2), ("", 0), (" a", 0), ("a::b", 2)] {
        let mut s = Stream::from(text);
        assert_eq!(s.consume_qname(), Err(StreamError::InvalidName), "{:?}", text);
        assert_eq!(s.pos(), pos, "{:?}", text);
    }
}

#[test]
fn consume_reference_stops_where_it_fails() {
    for (text, pos) in [
        ("x", 0),
        ("&", 1),
        ("&1;", 1),
        ("&amp ", 4),
        ("&#", 2),
        ("&#;", 2),
        ("&#xZ;", 3),
        ("&#12a;", 4),
        ("&#x1;", 4),
        ("&#4294967296;", 12),
        ("&#65", 4),
    ] {
        let mut s = Stream::from(text);
        assert_eq!(s.consume_reference(), Err(StreamError::InvalidReference), "{:?}", text);
        assert_eq!(s.pos(), pos, "{:?}", text);
    }
}
