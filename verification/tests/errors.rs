use xmlparser::{Error, StreamError, TextPos, Tokenizer};

fn first_error(text: &str) -> Error {
    let mut p = Tokenizer::from(text);
    while let Some(t) = p.next() {
        if let Err(e) = t {
            return e;
        }
    }
    panic!("no error in {:?}", text);
}

#[test]
fn text_pos_as_text() {
    assert_eq!(TextPos::new(1, 1).to_string(), "1:1");
    assert_eq!(TextPos::new(10, 205).to_string(), "10:205");
    assert_eq!(TextPos::new(0, 4294967295).to_string(), "0:4294967295");
}

#[test]
fn stream_error_messages() {
    let pos = TextPos::new(2, 13);
    assert_eq!(StreamError::UnexpectedEndOfStream.to_string(), "unexpected end of stream");
    assert_eq!(StreamError::InvalidName.to_string(), "invalid name token");
    assert_eq!(
        StreamError::NonXmlChar('a', pos).to_string(),
        "a non-XML character 'a' found at 2:13"
    );
    assert_eq!(
        StreamError::NonXmlChar('\u{1}', pos).to_string(),
        "a non-XML character '\\u{1}' found at 2:13"
    );
    assert_eq!(
        StreamError::NonXmlChar('\'', pos).to_string(),
        "a non-XML character '\\'' found at 2:13"
    );
    assert_eq!(
        StreamError::InvalidChar(b'a', b'=', pos).to_string(),
        "expected '=' not 'a' at 2:13"
    );
    assert_eq!(
        StreamError::InvalidChar(0xE9, b'>', pos).to_string(),
        "expected '>' not 'é' at 2:13"
    );
    assert_eq!(
        StreamError::InvalidCharMultiple(b'x', &[b'[', b'>'], pos).to_string(),
        "expected '[', '>' not 'x' at 2:13"
    );
    assert_eq!(
        StreamError::InvalidCharMultiple(b'x', &[b'"', b'\'', b'S', b'P'], pos).to_string(),
        "expected '\"', ''', 'S', 'P' not 'x' at 2:13"
    );
    assert_eq!(
        StreamError::InvalidCharMultiple(b'x', &[b'a'], pos).to_string(),
        "expected 'a' not 'x' at 2:13"
    );
    assert_eq!(
        StreamError::InvalidCharMultiple(b'x', &[], pos).to_string(),
        "expected  not 'x' at 2:13"
    );
    assert_eq!(
        StreamError::InvalidQuote(b'1', pos).to_string(),
        "expected quote mark not '1' at 2:13"
    );
    assert_eq!(
        StreamError::InvalidSpace(b'b', pos).to_string(),
        "expected space not 'b' at 2:13"
    );
    assert_eq!(
        StreamError::InvalidString("yes', 'no", pos).to_string(),
        "expected 'yes', 'no' at 2:13"
    );
    assert_eq!(StreamError::InvalidReference.to_string(), "invalid reference");
    assert_eq!(StreamError::InvalidExternalID.to_string(), "invalid ExternalID");
    assert_eq!(
        StreamError::InvalidCommentData.to_string(),
        "'--' is not allowed in comments"
    );
    assert_eq!(StreamError::InvalidCommentEnd.to_string(), "comment cannot end with '-'");
    assert_eq!(
        StreamError::InvalidCharacterData.to_string(),
        "']]>' is not allowed inside a character data"
    );
}

#[test]
fn error_messages() {
    let cause = StreamError::InvalidName;
    let pos = TextPos::new(3, 7);
    assert_eq!(
        Error::InvalidDeclaration(cause, pos).to_string(),
        "invalid XML declaration at 3:7 cause invalid name token"
    );
    assert_eq!(
        Error::InvalidComment(cause, pos).to_string(),
        "invalid comment at 3:7 cause invalid name token"
    );
    assert_eq!(
        Error::InvalidPI(cause, pos).to_string(),
        "invalid processing instruction at 3:7 cause invalid name token"
    );
    assert_eq!(
        Error::InvalidDoctype(cause, pos).to_string(),
        "invalid DTD at 3:7 cause invalid name token"
    );
    assert_eq!(
        Error::InvalidEntity(cause, pos).to_string(),
        "invalid DTD entity at 3:7 cause invalid name token"
    );
    assert_eq!(
        Error::InvalidElement(cause, pos).to_string(),
        "invalid element at 3:7 cause invalid name token"
    );
    assert_eq!(
        Error::InvalidAttribute(cause, pos).to_string(),
        "invalid attribute at 3:7 cause invalid name token"
    );
    assert_eq!(
        Error::InvalidCdata(cause, pos).to_string(),
        "invalid CDATA at 3:7 cause invalid name token"
    );
    assert_eq!(
        Error::InvalidCharData(cause, pos).to_string(),
        "invalid character data at 3:7 cause invalid name token"
    );
    assert_eq!(Error::UnknownToken(pos).to_string(), "unknown token at 3:7");
}

#[test]
fn error_positions_and_causes() {
    let cause = StreamError::InvalidQuote(b'1', TextPos::new(1, 6));
    let pos = TextPos::new(1, 3);
    for e in [
        Error::InvalidDeclaration(cause, pos),
        Error::InvalidComment(cause, pos),
        Error::InvalidPI(cause, pos),
        Error::InvalidDoctype(cause, pos),
        Error::InvalidEntity(cause, pos),
        Error::InvalidElement(cause, pos),
        Error::InvalidAttribute(cause, pos),
        Error::InvalidCdata(cause, pos),
        Error::InvalidCharData(cause, pos),
    ] {
        assert_eq!(e.pos(), pos);
        assert_eq!(e.cause(), Some(cause));
    }
    assert_eq!(Error::UnknownToken(pos).pos(), pos);
    assert_eq!(Error::UnknownToken(pos).cause(), None);
}

#[test]
fn every_kind_of_error() {
    let at = TextPos::new;
    assert_eq!(
        first_error("<?xml version='1.0' encoding='UTF-8' standalone='maybe'?>"),
        Error::InvalidDeclaration(StreamError::InvalidString("yes', 'no", at(1, 50)), at(1, 1))
    );
    assert_eq!(
        first_error("<?xml version='1.0'encoding='UTF-8'?>"),
        Error::InvalidDeclaration(StreamError::InvalidSpace(b'e', at(1, 20)), at(1, 1))
    );
    assert_eq!(
        first_error("<?xml version='2.0'?>"),
        Error::InvalidDeclaration(StreamError::InvalidString("1.", at(1, 16)), at(1, 1))
    );
    assert_eq!(
        first_error("<?xml version='1.0\"?>"),
        Error::InvalidDeclaration(StreamError::InvalidChar(b'"', b'\'', at(1, 19)), at(1, 1))
    );
    assert_eq!(
        first_error("<!-- --- -->"),
        Error::InvalidComment(StreamError::InvalidCommentData, at(1, 1))
    );
    assert_eq!(
        first_error("\n <!--a--b-->"),
        Error::InvalidComment(StreamError::InvalidCommentData, at(2, 2))
    );
    assert_eq!(
        first_error("<!-- a --->"),
        Error::InvalidComment(StreamError::InvalidCommentEnd, at(1, 1))
    );
    assert_eq!(
        first_error("<!-- a"),
        Error::InvalidComment(StreamError::InvalidString("-->", at(1, 7)), at(1, 1))
    );
    assert_eq!(
        first_error("<?1?>"),
        Error::InvalidPI(StreamError::InvalidName, at(1, 1))
    );
    assert_eq!(
        first_error("<!DOCTYPE a b>"),
        Error::InvalidDoctype(StreamError::InvalidCharMultiple(b'b', &[b'[', b'>'], at(1, 13)), at(1, 1))
    );
    assert_eq!(
        first_error("<!DOCTYPE a"),
        Error::InvalidDoctype(StreamError::UnexpectedEndOfStream, at(1, 1))
    );
    assert_eq!(
        first_error("<!DOCTYPE a [ ] x"),
        Error::InvalidDoctype(StreamError::InvalidChar(b'x', b'>', at(1, 17)), at(1, 15))
    );
    assert_eq!(
        first_error("<!DOCTYPE a [<!ENTITY e x>]>"),
        Error::InvalidEntity(
            StreamError::InvalidCharMultiple(b'x', &[b'"', b'\'', b'S', b'P'], at(1, 25)),
            at(1, 14)
        )
    );
    assert_eq!(
        first_error("<!DOCTYPE a [<!ENTITY e Sx>]>"),
        Error::InvalidEntity(StreamError::InvalidExternalID, at(1, 14))
    );
    assert_eq!(
        first_error("<a:b:c/>"),
        Error::InvalidElement(StreamError::InvalidName, at(1, 1))
    );
    assert_eq!(
        first_error("<a></a b>"),
        Error::InvalidElement(StreamError::InvalidChar(b'b', b'>', at(1, 8)), at(1, 4))
    );
    assert_eq!(
        first_error("<a b=1/>"),
        Error::InvalidAttribute(StreamError::InvalidQuote(b'1', at(1, 6)), at(1, 3))
    );
    assert_eq!(
        first_error("<a b='1'c='2'/>"),
        Error::InvalidAttribute(StreamError::InvalidSpace(b'c', at(1, 9)), at(1, 9))
    );
    assert_eq!(
        first_error("<a><![CDATA[x]]"),
        Error::InvalidCdata(StreamError::InvalidString("]]>", at(1, 16)), at(1, 4))
    );
    assert_eq!(
        first_error("<p>]]></p>"),
        Error::InvalidCharData(StreamError::InvalidCharacterData, at(1, 4))
    );
    assert_eq!(
        first_error("<p>a\u{FFFE}</p>"),
        Error::InvalidCharData(StreamError::NonXmlChar('\u{FFFE}', at(1, 5)), at(1, 4))
    );
    assert_eq!(first_error("<a/>\n x"), Error::UnknownToken(at(2, 2)));
    assert_eq!(first_error("<a><!ELEMENT>"), Error::UnknownToken(at(1, 4)));
    assert_eq!(first_error("<!DOCTYPE a [<!ELEMENT b"), Error::UnknownToken(at(1, 14)));
}

#[test]
fn message_for_a_character_that_is_no_xml_char() {
    assert_eq!(
        StreamError::non_xml_char_text("'x'", TextPos::new(1, 2)),
        "a non-XML character 'x' found at 1:2"
    );
    assert_eq!(
        StreamError::non_xml_char_text("", TextPos::new(12, 34)),
        "a non-XML character  found at 12:34"
    );
}
