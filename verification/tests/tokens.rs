use xmlparser::{
    ElementEnd, EntityDefinition, Error, ExternalId, StreamError, TextPos, Token, Tokenizer,
};

#[test]
fn empty_element() {
    let text = "<a/>";
    let tokens = Tokenizer::from(text).collect();
    assert_eq!(tokens.len(), 2);
    match tokens[0].unwrap() {
        Token::ElementStart { prefix, local, span } => {
            assert_eq!(prefix.as_str(), "");
            assert_eq!(prefix.range(), 1..1);
            assert_eq!(local.as_str(), "a");
            assert_eq!(local.range(), 1..2);
            assert_eq!(span.range(), 0..2);
        }
        _ => panic!(),
    }
    match tokens[1].unwrap() {
        Token::ElementEnd { end, span } => {
            assert_eq!(end, ElementEnd::Empty);
            assert_eq!(span.range(), 2..4);
        }
        _ => panic!(),
    }
}

#[test]
fn element_with_close() {
    let tokens = Tokenizer::from("<a></a>").collect();
    assert_eq!(tokens.len(), 3);
    match tokens[0].unwrap() {
        Token::ElementStart { prefix, local, span } => {
            assert_eq!((prefix.as_str(), local.as_str()), ("", "a"));
            assert_eq!(span.range(), 0..2);
        }
        _ => panic!(),
    }
    match tokens[1].unwrap() {
        Token::ElementEnd { end, span } => {
            assert_eq!(end, ElementEnd::Open);
            assert_eq!(span.range(), 2..3);
        }
        _ => panic!(),
    }
    match tokens[2].unwrap() {
        Token::ElementEnd { end: ElementEnd::Close(prefix, local), span } => {
            assert_eq!((prefix.as_str(), local.as_str()), ("", "a"));
            assert_eq!(prefix.range(), 5..5);
            assert_eq!(local.range(), 5..6);
            assert_eq!(span.range(), 3..7);
        }
        _ => panic!(),
    }
}

#[test]
fn full_declaration() {
    let tokens =
        Tokenizer::from("<?xml version='1.0' encoding='UTF-8' standalone='yes'?>").collect();
    assert_eq!(tokens.len(), 1);
    match tokens[0].unwrap() {
        Token::Declaration { version, encoding, standalone, span } => {
            assert_eq!(version.as_str(), "1.0");
            assert_eq!(version.range(), 15..18);
            assert_eq!(encoding.unwrap().as_str(), "UTF-8");
            assert_eq!(encoding.unwrap().range(), 30..35);
            assert_eq!(standalone, Some(true));
            assert_eq!(span.range(), 0..55);
        }
        _ => panic!(),
    }
}

#[test]
fn plain_comment() {
    let tokens = Tokenizer::from("<!--comment-->").collect();
    assert_eq!(tokens.len(), 1);
    match tokens[0].unwrap() {
        Token::Comment { text, span } => {
            assert_eq!(text.as_str(), "comment");
            assert_eq!(text.range(), 4..11);
            assert_eq!(span.range(), 0..14);
        }
        _ => panic!(),
    }
}

#[test]
fn cdata_with_markup() {
    let tokens = Tokenizer::from("<p><![CDATA[<x>&y</x>]]></p>").collect();
    assert_eq!(tokens.len(), 4);
    assert!(matches!(tokens[0], Ok(Token::ElementStart { span, .. }) if span.range() == (0..2)));
    assert!(matches!(
        tokens[1],
        Ok(Token::ElementEnd { end: ElementEnd::Open, span }) if span.range() == (2..3)
    ));
    match tokens[2].unwrap() {
        Token::Cdata { text, span } => {
            assert_eq!(text.as_str(), "<x>&y</x>");
            assert_eq!(text.range(), 12..21);
            assert_eq!(span.range(), 3..24);
        }
        _ => panic!(),
    }
    match tokens[3].unwrap() {
        Token::ElementEnd { end: ElementEnd::Close(prefix, local), span } => {
            assert_eq!((prefix.as_str(), local.as_str()), ("", "p"));
            assert_eq!(span.range(), 24..28);
        }
        _ => panic!(),
    }
}

#[test]
fn cdata_end_in_text() {
    let tokens = Tokenizer::from("<p>]]></p>").collect();
    assert_eq!(tokens.len(), 3);
    assert!(matches!(tokens[0], Ok(Token::ElementStart { local, .. }) if local.as_str() == "p"));
    assert!(matches!(tokens[1], Ok(Token::ElementEnd { end: ElementEnd::Open, .. })));
    assert_eq!(
        tokens[2],
        Err(Error::InvalidCharData(StreamError::InvalidCharacterData, TextPos::new(1, 4)))
    );
}

#[test]
fn doctype_with_entity() {
    let tokens = Tokenizer::from("<!DOCTYPE s [<!ENTITY e \"v\">]>").collect();
    assert_eq!(tokens.len(), 3);
    match tokens[0].unwrap() {
        Token::DtdStart { name, external_id, span } => {
            assert_eq!(name.as_str(), "s");
            assert_eq!(external_id, None);
            assert_eq!(span.range(), 0..13);
        }
        _ => panic!(),
    }
    match tokens[1].unwrap() {
        Token::EntityDeclaration { name, definition, span } => {
            assert_eq!(name.as_str(), "e");
            match definition {
                EntityDefinition::EntityValue(value) => {
                    assert_eq!(value.as_str(), "v");
                    assert_eq!(value.range(), 25..26);
                }
                _ => panic!(),
            }
            assert_eq!(span.range(), 13..28);
        }
        _ => panic!(),
    }
    match tokens[2].unwrap() {
        Token::DtdEnd { span } => assert_eq!(span.range(), 28..30),
        _ => panic!(),
    }
}

#[test]
fn attribute_value_excludes_the_quotes() {
    let text = "<a b=\"1\"/>";
    let tokens = Tokenizer::from(text).collect();
    assert_eq!(tokens.len(), 3);
    match tokens[1].unwrap() {
        Token::Attribute { prefix, local, value, span } => {
            assert_eq!(prefix.as_str(), "");
            assert_eq!(local.as_str(), "b");
            assert_eq!(value.as_str(), "1");
            assert_eq!(value.range(), 6..7);
            assert_eq!(&text[value.range()], "1");
            assert_eq!(span.range(), 3..8);
            assert_eq!(&text[span.range()], "b=\"1\"");
        }
        _ => panic!(),
    }
}

#[test]
fn attribute_without_quotes() {
    let tokens = Tokenizer::from("<a b=1/>").collect();
    assert_eq!(tokens.len(), 2);
    assert!(matches!(tokens[0], Ok(Token::ElementStart { .. })));
    assert_eq!(
        tokens[1],
        Err(Error::InvalidAttribute(
            StreamError::InvalidQuote(b'1', TextPos::new(1, 6)),
            TextPos::new(1, 3)
        ))
    );
}

#[test]
fn comment_with_hyphens() {
    let tokens = Tokenizer::from("<!-- --- -->").collect();
    assert_eq!(
        tokens,
        vec![Err(Error::InvalidComment(StreamError::InvalidCommentData, TextPos::new(1, 1)))]
    );
}

#[test]
fn external_ids() {
    let text = "<!DOCTYPE a PUBLIC '-//x' \"u\" [<!ENTITY % p SYSTEM 's'><!ENTITY g PUBLIC 'i' 'u' NDATA n >]>";
    let tokens = Tokenizer::from(text).collect();
    assert_eq!(tokens.len(), 4);
    match tokens[0].unwrap() {
        Token::DtdStart { name, external_id: Some(ExternalId::Public(a, b)), .. } => {
            assert_eq!(name.as_str(), "a");
            assert_eq!(a.as_str(), "-//x");
            assert_eq!(b.as_str(), "u");
        }
        _ => panic!(),
    }
    match tokens[1].unwrap() {
        Token::EntityDeclaration {
            name,
            definition: EntityDefinition::ExternalId(ExternalId::System(s)),
            span,
        } => {
            assert_eq!(name.as_str(), "p");
            assert_eq!(s.as_str(), "s");
            assert_eq!(span.as_str(), "<!ENTITY % p SYSTEM 's'>");
        }
        _ => panic!(),
    }
    match tokens[2].unwrap() {
        Token::EntityDeclaration {
            name,
            definition: EntityDefinition::ExternalId(ExternalId::Public(a, b)),
            span,
        } => {
            assert_eq!(name.as_str(), "g");
            assert_eq!(a.as_str(), "i");
            assert_eq!(b.as_str(), "u");
            assert_eq!(span.as_str(), "<!ENTITY g PUBLIC 'i' 'u' NDATA n >");
        }
        _ => panic!(),
    }
    assert!(matches!(tokens[3], Ok(Token::DtdEnd { .. })));
}

#[test]
fn declaration_elsewhere_is_unknown() {
    for (text, n, pos) in [
        (" <?xml version='1.0'?>", 0, (1, 2)),
        ("<!--c--><?xml version='1.0'?>", 1, (1, 9)),
        ("<!DOCTYPE a [<?xml version='1.0'?>]>", 1, (1, 14)),
        ("<a><?xml version='1.0'?></a>", 2, (1, 4)),
        ("<a/><?xml version='1.0'?>", 2, (1, 5)),
    ] {
        let tokens = Tokenizer::from(text).collect();
        assert_eq!(tokens.len(), n + 1, "{:?}", text);
        assert!(tokens[..n].iter().all(|t| t.is_ok()));
        assert_eq!(tokens[n], Err(Error::UnknownToken(TextPos::new(pos.0, pos.1))), "{:?}", text);
    }
}

#[test]
fn markup_that_elements_do_not_hold() {
    for text in ["<a><!DOCTYPE b></a>", "<a><!ENTITY b 'c'></a>", "<a><!></a>", "<a><"] {
        let tokens = Tokenizer::from(text).collect();
        assert_eq!(tokens.len(), 3, "{:?}", text);
        assert_eq!(tokens[2], Err(Error::UnknownToken(TextPos::new(1, 4))), "{:?}", text);
    }
}

#[test]
fn version_needs_a_digit() {
    let at = TextPos::new;
    for (text, cause) in [
        (
            "<?xml version='1.'?>",
            StreamError::InvalidCharMultiple(b'\'', b"0123456789", at(1, 18)),
        ),
        (
            "<?xml version=\"1.\"?>",
            StreamError::InvalidCharMultiple(b'"', b"0123456789", at(1, 18)),
        ),
        ("<?xml version=\"1.x\"?>", StreamError::InvalidChar(b'x', b'"', at(1, 18))),
        ("<?xml version='1.\"?>", StreamError::InvalidChar(b'"', b'\'', at(1, 18))),
        ("<?xml version='1.", StreamError::UnexpectedEndOfStream),
        ("<?xml version='1'?>", StreamError::InvalidString("1.", at(1, 16))),
        ("<?xml version='1.0a'?>", StreamError::InvalidChar(b'a', b'\'', at(1, 19))),
    ] {
        let tokens = Tokenizer::from(text).collect();
        assert_eq!(tokens, vec![Err(Error::InvalidDeclaration(cause, at(1, 1)))], "{:?}", text);
    }
    for (text, version) in [("<?xml version='1.0'?>", "1.0"), ("<?xml version='1.10'?>", "1.10")] {
        match Tokenizer::from(text).next() {
            Some(Ok(Token::Declaration { version: v, .. })) => assert_eq!(v.as_str(), version),
            _ => panic!(),
        }
    }
}

#[test]
fn encoding_name_starts_with_a_letter() {
    let at = TextPos::new;
    for (text, cause) in [
        ("<?xml version='1.0' encoding=''?>", StreamError::InvalidName),
        ("<?xml version='1.0' encoding='8859-1'?>", StreamError::InvalidName),
        ("<?xml version='1.0' encoding='-utf'?>", StreamError::InvalidName),
        ("<?xml version='1.0' encoding='_utf'?>", StreamError::InvalidName),
        ("<?xml version='1.0' encoding='.'?>", StreamError::InvalidName),
        ("<?xml version='1.0' encoding=\"\"?>", StreamError::InvalidName),
        ("<?xml version='1.0' encoding='", StreamError::UnexpectedEndOfStream),
        ("<?xml version='1.0' encoding='8", StreamError::UnexpectedEndOfStream),
        (
            "<?xml version='1.0' encoding='*invalid*'?>",
            StreamError::InvalidChar(b'*', b'\'', at(1, 31)),
        ),
        (
            "<?xml version='1.0' encoding='1abc*'?>",
            StreamError::InvalidChar(b'*', b'\'', at(1, 35)),
        ),
        (
            "<?xml version='1.0' encoding='\"?>",
            StreamError::InvalidChar(b'"', b'\'', at(1, 31)),
        ),
        (
            "<?xml version='1.0' encoding='utf 8'?>",
            StreamError::InvalidChar(b' ', b'\'', at(1, 34)),
        ),
    ] {
        let tokens = Tokenizer::from(text).collect();
        assert_eq!(tokens, vec![Err(Error::InvalidDeclaration(cause, at(1, 1)))], "{:?}", text);
    }
    for (text, name) in [
        ("<?xml version='1.0' encoding='U'?>", "U"),
        ("<?xml version='1.0' encoding=\"iso-8859-1\"?>", "iso-8859-1"),
        ("<?xml version='1.0' encoding='x_1.2-'?>", "x_1.2-"),
    ] {
        match Tokenizer::from(text).next() {
            Some(Ok(Token::Declaration { encoding, .. })) => {
                assert_eq!(encoding.unwrap().as_str(), name)
            }
            _ => panic!(),
        }
    }
}

#[test]
fn parameter_entity_without_space() {
    for text in [
        "<!DOCTYPE s [<!ENTITY %a \"v\">]>",
        "<!DOCTYPE s [<!ENTITY % a \"v\">]>",
        "<!DOCTYPE s [<!ENTITY %\n\ta \"v\">]>",
        "<!DOCTYPE s [<!ENTITY a \"v\">]>",
    ] {
        let tokens = Tokenizer::from(text).collect();
        assert_eq!(tokens.len(), 3, "{:?}", text);
        match tokens[1].unwrap() {
            Token::EntityDeclaration { name, definition, span } => {
                assert_eq!(name.as_str(), "a");
                assert_eq!(definition, EntityDefinition::EntityValue(tokens_value(text)));
                assert_eq!(span.start(), 13);
                assert!(span.as_str().starts_with("<!ENTITY ") && span.as_str().ends_with("\"v\">"));
            }
            _ => panic!(),
        }
    }
    let tokens = Tokenizer::from("<!DOCTYPE s [<!ENTITY% a \"v\">]>").collect();
    assert_eq!(
        tokens[1],
        Err(Error::InvalidEntity(
            StreamError::InvalidSpace(b'%', TextPos::new(1, 22)),
            TextPos::new(1, 14)
        ))
    );
}

fn tokens_value(text: &str) -> xmlparser::StrSpan {
    let at = text.find("\"v\"").unwrap() + 1;
    let mut s = xmlparser::Stream::from(text);
    s.advance(at);
    s.consume_bytes(|_, c| c != b'"')
}

#[test]
fn notation_needs_a_name() {
    let at = TextPos::new;
    for (text, cause) in [
        ("<!DOCTYPE s [<!ENTITY g SYSTEM 'x' NDATA >", StreamError::InvalidName),
        ("<!DOCTYPE s [<!ENTITY g SYSTEM 'x' NDATA ", StreamError::InvalidName),
        ("<!DOCTYPE s [<!ENTITY g SYSTEM 'x' NDATA", StreamError::UnexpectedEndOfStream),
        ("<!DOCTYPE s [<!ENTITY g SYSTEM 'x' NDATA 1>", StreamError::InvalidName),
    ] {
        let tokens = Tokenizer::from(text).collect();
        assert_eq!(tokens.len(), 2, "{:?}", text);
        assert_eq!(tokens[1], Err(Error::InvalidEntity(cause, at(1, 14))), "{:?}", text);
    }
    let tokens = Tokenizer::from("<!DOCTYPE s [<!ENTITY g SYSTEM 'x' NDATA n>").collect();
    assert!(matches!(tokens[1], Ok(Token::EntityDeclaration { .. })));
}

#[test]
fn notation_needs_white_space_before_it() {
    let tokens = Tokenizer::from("<!DOCTYPE s [<!ENTITY g SYSTEM 'x'NDATA n>").collect();
    assert_eq!(tokens.len(), 2);
    assert_eq!(
        tokens[1],
        Err(Error::InvalidEntity(
            StreamError::InvalidChar(b'N', b'>', TextPos::new(1, 35)),
            TextPos::new(1, 14)
        ))
    );
    let tokens = Tokenizer::from("<!DOCTYPE s [<!ENTITY % p SYSTEM 'x' NDATA n>").collect();
    assert_eq!(
        tokens[1],
        Err(Error::InvalidEntity(
            StreamError::InvalidChar(b'N', b'>', TextPos::new(1, 38)),
            TextPos::new(1, 14)
        ))
    );
    let tokens = Tokenizer::from("<!DOCTYPE s [<!ENTITY g SYSTEM 'x'\n\tNDATA\nn\n>").collect();
    match tokens[1].unwrap() {
        Token::EntityDeclaration { span, .. } => assert_eq!(span.range(), 13..45),
        _ => panic!(),
    }
}
