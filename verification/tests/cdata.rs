use xmlparser::Tokenizer;


type Range = ::std::ops::Range<usize>;

#[derive(PartialEq, Debug)]
pub enum Token<'a> {
    Declaration(&'a str, Option<&'a str>, Option<bool>, Range),
    PI(&'a str, Option<&'a str>, Range),
    Comment(&'a str, Range),
    DtdStart(&'a str, Option<ExternalId<'a>>, Range),
    EmptyDtd(&'a str, Option<ExternalId<'a>>, Range),
    EntityDecl(&'a str, EntityDefinition<'a>, Range),
    DtdEnd(Range),
    ElementStart(&'a str, &'a str, Range),
    Attribute(&'a str, &'a str, &'a str, Range),
    ElementEnd(ElementEnd<'a>, Range),
    Text(&'a str, Range),
    Cdata(&'a str, Range),
    Error(String),
}

#[derive(PartialEq, Debug)]
pub enum ElementEnd<'a> {
    Open,
    Close(&'a str, &'a str),
    Empty,
}

#[derive(PartialEq, Debug)]
pub enum ExternalId<'a> {
    System(&'a str),
    Public(&'a str, &'a str),
}

#[derive(PartialEq, Debug)]
pub enum EntityDefinition<'a> {
    EntityValue(&'a str),
    ExternalId(ExternalId<'a>),
}

pub fn to_test_token(token: Result<xmlparser::Token, xmlparser::Error>) -> Token {
    match token {
        Ok(xmlparser::Token::Declaration { version, encoding, standalone, span }) => {
            Token::Declaration(
                version.as_str(),
                encoding.map(|v| v.as_str()),
                standalone,
                span.range(),
            )
        }
        Ok(xmlparser::Token::ProcessingInstruction { target, content, span }) => {
            Token::PI(
                target.as_str(),
                content.map(|v| v.as_str()),
                span.range(),
            )
        }
        Ok(xmlparser::Token::Comment { text, span }) => Token::Comment(text.as_str(), span.range()),
        Ok(xmlparser::Token::DtdStart { name, external_id, span }) => {
            Token::DtdStart(
                name.as_str(),
                external_id.map(|v| to_test_external_id(v)),
                span.range(),
            )
        }
        Ok(xmlparser::Token::EmptyDtd { name, external_id, span }) => {
            Token::EmptyDtd(
                name.as_str(),
                external_id.map(|v| to_test_external_id(v)),
                span.range(),
            )
        }
        Ok(xmlparser::Token::EntityDeclaration { name, definition, span }) => {
            Token::EntityDecl(
                name.as_str(),
                match definition {
                    xmlparser::EntityDefinition::EntityValue(name) => {
                        EntityDefinition::EntityValue(name.as_str())
                    }
                    xmlparser::EntityDefinition::ExternalId(id) => {
                        EntityDefinition::ExternalId(to_test_external_id(id))
                    }
                },
                span.range(),
            )
        }
        Ok(xmlparser::Token::DtdEnd { span }) => Token::DtdEnd(span.range()),
        Ok(xmlparser::Token::ElementStart { prefix, local, span }) => {
            Token::ElementStart(prefix.as_str(), local.as_str(), span.range())
        }
        Ok(xmlparser::Token::Attribute { prefix, local, value, span }) => {
            Token::Attribute(prefix.as_str(), local.as_str(), value.as_str(), span.range())
        }
        Ok(xmlparser::Token::ElementEnd { end, span }) => {
            Token::ElementEnd(
                match end {
                    xmlparser::ElementEnd::Open => ElementEnd::Open,
                    xmlparser::ElementEnd::Close(prefix, local) => {
                        ElementEnd::Close(prefix.as_str(), local.as_str())
                    }
                    xmlparser::ElementEnd::Empty => ElementEnd::Empty,
                },
                span.range()
            )
        }
        Ok(xmlparser::Token::Text { text }) => Token::Text(text.as_str(), text.range()),
        Ok(xmlparser::Token::Cdata { text, span }) => Token::Cdata(text.as_str(), span.range()),
        Err(ref e) => Token::Error(e.to_string()),
    }
}

fn to_test_external_id(id: xmlparser::ExternalId) -> ExternalId {
    match id {
        xmlparser::ExternalId::System(name) => {
            ExternalId::System(name.as_str())
        }
        xmlparser::ExternalId::Public(name, value) => {
            ExternalId::Public(name.as_str(), value.as_str())
        }
    }
}

#[test]
fn cdata_01() {
    let mut p = Tokenizer::from("<p><![CDATA[content]]></p>");
    assert_eq!(to_test_token(p.next().unwrap()), Token::ElementStart("", "p", 0..2));
    assert_eq!(to_test_token(p.next().unwrap()), Token::ElementEnd(ElementEnd::Open, 2..3));
    assert_eq!(to_test_token(p.next().unwrap()), Token::Cdata("content", 3..22));
    assert_eq!(to_test_token(p.next().unwrap()), Token::ElementEnd(ElementEnd::Close("", "p"), 22..26));
    assert!(p.next().is_none());
}

#[test]
fn cdata_02() {
    let mut p = Tokenizer::from("<p><![CDATA[&amping]]></p>");
    assert_eq!(to_test_token(p.next().unwrap()), Token::ElementStart("", "p", 0..2));
    assert_eq!(to_test_token(p.next().unwrap()), Token::ElementEnd(ElementEnd::Open, 2..3));
    assert_eq!(to_test_token(p.next().unwrap()), Token::Cdata("&amping", 3..22));
    assert_eq!(to_test_token(p.next().unwrap()), Token::ElementEnd(ElementEnd::Close("", "p"), 22..26));
    assert!(p.next().is_none());
}

#[test]
fn cdata_03() {
    let mut p = Tokenizer::from("<p><![CDATA[&amping ]]]></p>");
    assert_eq!(to_test_token(p.next().unwrap()), Token::ElementStart("", "p", 0..2));
    assert_eq!(to_test_token(p.next().unwrap()), Token::ElementEnd(ElementEnd::Open, 2..3));
    assert_eq!(to_test_token(p.next().unwrap()), Token::Cdata("&amping ]", 3..24));
    assert_eq!(to_test_token(p.next().unwrap()), Token::ElementEnd(ElementEnd::Close("", "p"), 24..28));
    assert!(p.next().is_none());
}

#[test]
fn cdata_04() {
    let mut p = Tokenizer::from("<p><![CDATA[&amping]] ]]></p>");
    assert_eq!(to_test_token(p.next().unwrap()), Token::ElementStart("", "p", 0..2));
    assert_eq!(to_test_token(p.next().unwrap()), Token::ElementEnd(ElementEnd::Open, 2..3));
    assert_eq!(to_test_token(p.next().unwrap()), Token::Cdata("&amping]] ", 3..25));
    assert_eq!(to_test_token(p.next().unwrap()), Token::ElementEnd(ElementEnd::Close("", "p"), 25..29));
    assert!(p.next().is_none());
}

#[test]
fn cdata_05() {
    let mut p = Tokenizer::from("<p><![CDATA[<message>text</message>]]></p>");
    assert_eq!(to_test_token(p.next().unwrap()), Token::ElementStart("", "p", 0..2));
    assert_eq!(to_test_token(p.next().unwrap()), Token::ElementEnd(ElementEnd::Open, 2..3));
    assert_eq!(to_test_token(p.next().unwrap()), Token::Cdata("<message>text</message>", 3..38));
    assert_eq!(to_test_token(p.next().unwrap()), Token::ElementEnd(ElementEnd::Close("", "p"), 38..42));
    assert!(p.next().is_none());
}

#[test]
fn cdata_06() {
    let mut p = Tokenizer::from("<p><![CDATA[</this is malformed!</malformed</malformed & worse>]]></p>");
    assert_eq!(to_test_token(p.next().unwrap()), Token::ElementStart("", "p", 0..2));
    assert_eq!(to_test_token(p.next().unwrap()), Token::ElementEnd(ElementEnd::Open, 2..3));
    assert_eq!(to_test_token(p.next().unwrap()), Token::Cdata("</this is malformed!</malformed</malformed & worse>", 3..66));
    assert_eq!(to_test_token(p.next().unwrap()), Token::ElementEnd(ElementEnd::Close("", "p"), 66..70));
    assert!(p.next().is_none());
}

#[test]
fn cdata_07() {
    let mut p = Tokenizer::from("<p><![CDATA[1]]><![CDATA[2]]></p>");
    assert_eq!(to_test_token(p.next().unwrap()), Token::ElementStart("", "p", 0..2));
    assert_eq!(to_test_token(p.next().unwrap()), Token::ElementEnd(ElementEnd::Open, 2..3));
    assert_eq!(to_test_token(p.next().unwrap()), Token::Cdata("1", 3..16));
    assert_eq!(to_test_token(p.next().unwrap()), Token::Cdata("2", 16..29));
    assert_eq!(to_test_token(p.next().unwrap()), Token::ElementEnd(ElementEnd::Close("", "p"), 29..33));
    assert!(p.next().is_none());
}

#[test]
fn cdata_08() {
    let mut p = Tokenizer::from("<p> \n <![CDATA[data]]> \t </p>");
    assert_eq!(to_test_token(p.next().unwrap()), Token::ElementStart("", "p", 0..2));
    assert_eq!(to_test_token(p.next().unwrap()), Token::ElementEnd(ElementEnd::Open, 2..3));
    assert_eq!(to_test_token(p.next().unwrap()), Token::Text(" \n ", 3..6));
    assert_eq!(to_test_token(p.next().unwrap()), Token::Cdata("data", 6..22));
    assert_eq!(to_test_token(p.next().unwrap()), Token::Text(" \t ", 22..25));
    assert_eq!(to_test_token(p.next().unwrap()), Token::ElementEnd(ElementEnd::Close("", "p"), 25..29));
    assert!(p.next().is_none());
}

#[test]
fn cdata_09() {
    let mut p = Tokenizer::from("<p><![CDATA[bracket ]after]]></p>");
    assert_eq!(to_test_token(p.next().unwrap()), Token::ElementStart("", "p", 0..2));
    assert_eq!(to_test_token(p.next().unwrap()), Token::ElementEnd(ElementEnd::Open, 2..3));
    assert_eq!(to_test_token(p.next().unwrap()), Token::Cdata("bracket ]after", 3..29));
    assert_eq!(to_test_token(p.next().unwrap()), Token::ElementEnd(ElementEnd::Close("", "p"), 29..33));
    assert!(p.next().is_none());
}

#[test]
fn cdata_err_01() {
    let mut p = Tokenizer::from("<p><![CDATA[\0]]></p>");
    assert_eq!(to_test_token(p.next().unwrap()), Token::ElementStart("", "p", 0..2));
    assert_eq!(to_test_token(p.next().unwrap()), Token::ElementEnd(ElementEnd::Open, 2..3));
    assert_eq!(to_test_token(p.next().unwrap()), Token::Error("invalid CDATA at 1:4 cause a non-XML character '\\0' found at 1:13".to_string()));
    assert!(p.next().is_none());
}
