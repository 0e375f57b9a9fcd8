use xmlparser::Tokenizer;


type Range = ::std::ops::Range<usize>;

#[derive(PartialEq, Debug)]
pub enum Token<'a> {
    Declaration(&'a str, Option<&'a str>, Option<bool>, Range),
    PI(&'a str, Option<&'a str>, Range),
    Comment(&'a str, Range),
    DtdStart(&'a str, Option<ExternalId<'a>>, Range),
    EmptyDtd(&'a str, Option<ExternalId<'a>>, Range),
    EntityDecl(&'a str, EntityDefinition<'a>, Range),
    DtdEnd(Range),
    ElementStart(&'a str, &'a str, Range),
    Attribute(&'a str, &'a str, &'a str, Range),
    ElementEnd(ElementEnd<'a>, Range),
    Text(&'a str, Range),
    Cdata(&'a str, Range),
    Error(String),
}

#[derive(PartialEq, Debug)]
pub enum ElementEnd<'a> {
    Open,
    Close(&'a str, &'a str),
    Empty,
}

#[derive(PartialEq, Debug)]
pub enum ExternalId<'a> {
    System(&'a str),
    Public(&'a str, &'a str),
}

#[derive(PartialEq, Debug)]
pub enum EntityDefinition<'a> {
    EntityValue(&'a str),
    ExternalId(ExternalId<'a>),
}

pub fn to_test_token(token: Result<xmlparser::Token, xmlparser::Error>) -> Token {
    match token {
        Ok(xmlparser::Token::Declaration { version, encoding, standalone, span }) => {
            Token::Declaration(
                version.as_str(),
                encoding.map(|v| v.as_str()),
                standalone,
                span.range(),
            )
        }
        Ok(xmlparser::Token::ProcessingInstruction { target, content, span }) => {
            Token::PI(
                target.as_str(),
                content.map(|v| v.as_str()),
                span.range(),
            )
        }
        Ok(xmlparser::Token::Comment { text, span }) => Token::Comment(text.as_str(), span.range()),
        Ok(xmlparser::Token::DtdStart { name, external_id, span }) => {
            Token::DtdStart(
                name.as_str(),
                external_id.map(|v| to_test_external_id(v)),
                span.range(),
            )
        }
        Ok(xmlparser::Token::EmptyDtd { name, external_id, span }) => {
            Token::EmptyDtd(
                name.as_str(),
                external_id.map(|v| to_test_external_id(v)),
                span.range(),
            )
        }
        Ok(xmlparser::Token::EntityDeclaration { name, definition, span }) => {
            Token::EntityDecl(
                name.as_str(),
                match definition {
                    xmlparser::EntityDefinition::EntityValue(name) => {
                        EntityDefinition::EntityValue(name.as_str())
                    }
                    xmlparser::EntityDefinition::ExternalId(id) => {
                        EntityDefinition::ExternalId(to_test_external_id(id))
                    }
                },
                span.range(),
            )
        }
        Ok(xmlparser::Token::DtdEnd { span }) => Token::DtdEnd(span.range()),
        Ok(xmlparser::Token::ElementStart { prefix, local, span }) => {
            Token::ElementStart(prefix.as_str(), local.as_str(), span.range())
        }
        Ok(xmlparser::Token::Attribute { prefix, local, value, span }) => {
            Token::Attribute(prefix.as_str(), local.as_str(), value.as_str(), span.range())
        }
        Ok(xmlparser::Token::ElementEnd { end, span }) => {
            Token::ElementEnd(
                match end {
                    xmlparser::ElementEnd::Open => ElementEnd::Open,
                    xmlparser::ElementEnd::Close(prefix, local) => {
                        ElementEnd::Close(prefix.as_str(), local.as_str())
                    }
                    xmlparser::ElementEnd::Empty => ElementEnd::Empty,
                },
                span.range()
            )
        }
        Ok(xmlparser::Token::Text { text }) => Token::Text(text.as_str(), text.range()),
        Ok(xmlparser::Token::Cdata { text, span }) => Token::Cdata(text.as_str(), span.range()),
        Err(ref e) => Token::Error(e.to_string()),
    }
}

fn to_test_external_id(id: xmlparser::ExternalId) -> ExternalId {
    match id {
        xmlparser::ExternalId::System(name) => {
            ExternalId::System(name.as_str())
        }
        xmlparser::ExternalId::Public(name, value) => {
            ExternalId::Public(name.as_str(), value.as_str())
        }
    }
}

#[test]
fn element_01() {
    let mut p = Tokenizer::from("<a/>");
    assert_eq!(to_test_token(p.next().unwrap()), Token::ElementStart("", "a", 0..2));
    assert_eq!(to_test_token(p.next().unwrap()), Token::ElementEnd(ElementEnd::Empty, 2..4));
    assert!(p.next().is_none());
}

#[test]
fn element_02() {
    let mut p = Tokenizer::from("<a></a>");
    assert_eq!(to_test_token(p.next().unwrap()), Token::ElementStart("", "a", 0..2));
    assert_eq!(to_test_token(p.next().unwrap()), Token::ElementEnd(ElementEnd::Open, 2..3));
    assert_eq!(to_test_token(p.next().unwrap()), Token::ElementEnd(ElementEnd::Close("", "a"), 3..7));
    assert!(p.next().is_none());
}

#[test]
fn element_03() {
    let mut p = Tokenizer::from("  \t  <a/>   \n ");
    assert_eq!(to_test_token(p.next().unwrap()), Token::ElementStart("", "a", 5..7));
    assert_eq!(to_test_token(p.next().unwrap()), Token::ElementEnd(ElementEnd::Empty, 7..9));
    assert!(p.next().is_none());
}

#[test]
fn element_04() {
    let mut p = Tokenizer::from("  \t  <b><a/></b>   \n ");
    assert_eq!(to_test_token(p.next().unwrap()), Token::ElementStart("", "b", 5..7));
    assert_eq!(to_test_token(p.next().unwrap()), Token::ElementEnd(ElementEnd::Open, 7..8));
    assert_eq!(to_test_token(p.next().unwrap()), Token::ElementStart("", "a", 8..10));
    assert_eq!(to_test_token(p.next().unwrap()), Token::ElementEnd(ElementEnd::Empty, 10..12));
    assert_eq!(to_test_token(p.next().unwrap()), Token::ElementEnd(ElementEnd::Close("", "b"), 12..16));
    assert!(p.next().is_none());
}

#[test]
fn element_06() {
    let mut p = Tokenizer::from("<俄语 լեզու=\"ռուսերեն\">данные</俄语>");
    assert_eq!(to_test_token(p.next().unwrap()), Token::ElementStart("", "俄语", 0..7));
    assert_eq!(to_test_token(p.next().unwrap()), Token::Attribute("", "լեզու", "ռուսերեն", 8..37));
    assert_eq!(to_test_token(p.next().unwrap()), Token::ElementEnd(ElementEnd::Open, 37..38));
    assert_eq!(to_test_token(p.next().unwrap()), Token::Text("данные", 38..50));
    assert_eq!(to_test_token(p.next().unwrap()), Token::ElementEnd(ElementEnd::Close("", "俄语"), 50..59));
    assert!(p.next().is_none());
}

#[test]
fn element_07() {
    let mut p = Tokenizer::from("<svg:circle></svg:circle>");
    assert_eq!(to_test_token(p.next().unwrap()), Token::ElementStart("svg", "circle", 0..11));
    assert_eq!(to_test_token(p.next().unwrap()), Token::ElementEnd(ElementEnd::Open, 11..12));
    assert_eq!(to_test_token(p.next().unwrap()), Token::ElementEnd(ElementEnd::Close("svg", "circle"), 12..25));
    assert!(p.next().is_none());
}

#[test]
fn element_08() {
    let mut p = Tokenizer::from("<:circle/>");
    assert_eq!(to_test_token(p.next().unwrap()), Token::ElementStart("", "circle", 0..8));
    assert_eq!(to_test_token(p.next().unwrap()), Token::ElementEnd(ElementEnd::Empty, 8..10));
    assert!(p.next().is_none());
}

#[test]
fn element_err_01() {
    let mut p = Tokenizer::from("<>");
    assert_eq!(to_test_token(p.next().unwrap()), Token::Error("invalid element at 1:1 cause invalid name token".to_string()));
    assert!(p.next().is_none());
}

#[test]
fn element_err_02() {
    let mut p = Tokenizer::from("</");
    assert_eq!(to_test_token(p.next().unwrap()), Token::Error("invalid element at 1:1 cause invalid name token".to_string()));
    assert!(p.next().is_none());
}

#[test]
fn element_err_03() {
    let mut p = Tokenizer::from("</a");
    assert_eq!(to_test_token(p.next().unwrap()), Token::Error("invalid element at 1:1 cause invalid name token".to_string()));
    assert!(p.next().is_none());
}

#[test]
fn element_err_04() {
    let mut p = Tokenizer::from("<a x='test' /");
    assert_eq!(to_test_token(p.next().unwrap()), Token::ElementStart("", "a", 0..2));
    assert_eq!(to_test_token(p.next().unwrap()), Token::Attribute("", "x", "test", 3..11));
    assert_eq!(to_test_token(p.next().unwrap()), Token::Error("invalid attribute at 1:12 cause unexpected end of stream".to_string()));
    assert!(p.next().is_none());
}

#[test]
fn element_err_05() {
    let mut p = Tokenizer::from("<<");
    assert_eq!(to_test_token(p.next().unwrap()), Token::Error("invalid element at 1:1 cause invalid name token".to_string()));
    assert!(p.next().is_none());
}

#[test]
fn element_err_06() {
    let mut p = Tokenizer::from("< a");
    assert_eq!(to_test_token(p.next().unwrap()), Token::Error("invalid element at 1:1 cause invalid name token".to_string()));
    assert!(p.next().is_none());
}

#[test]
fn element_err_07() {
    let mut p = Tokenizer::from("< ");
    assert_eq!(to_test_token(p.next().unwrap()), Token::Error("invalid element at 1:1 cause invalid name token".to_string()));
    assert!(p.next().is_none());
}

#[test]
fn element_err_08() {
    let mut p = Tokenizer::from("<&#x9;");
    assert_eq!(to_test_token(p.next().unwrap()), Token::Error("invalid element at 1:1 cause invalid name token".to_string()));
    assert!(p.next().is_none());
}

#[test]
fn element_err_09() {
    let mut p = Tokenizer::from("<a></a></a>");
    assert_eq!(to_test_token(p.next().unwrap()), Token::ElementStart("", "a", 0..2));
    assert_eq!(to_test_token(p.next().unwrap()), Token::ElementEnd(ElementEnd::Open, 2..3));
    assert_eq!(to_test_token(p.next().unwrap()), Token::ElementEnd(ElementEnd::Close("", "a"), 3..7));
    assert_eq!(to_test_token(p.next().unwrap()), Token::Error("unknown token at 1:8".to_string()));
    assert!(p.next().is_none());
}

#[test]
fn element_err_10() {
    let mut p = Tokenizer::from("<a/><a/>");
    assert_eq!(to_test_token(p.next().unwrap()), Token::ElementStart("", "a", 0..2));
    assert_eq!(to_test_token(p.next().unwrap()), Token::ElementEnd(ElementEnd::Empty, 2..4));
    assert_eq!(to_test_token(p.next().unwrap()), Token::Error("unknown token at 1:5".to_string()));
    assert!(p.next().is_none());
}

#[test]
fn element_err_11() {
    let mut p = Tokenizer::from("<a></br/></a>");
    assert_eq!(to_test_token(p.next().unwrap()), Token::ElementStart("", "a", 0..2));
    assert_eq!(to_test_token(p.next().unwrap()), Token::ElementEnd(ElementEnd::Open, 2..3));
    assert_eq!(to_test_token(p.next().unwrap()), Token::Error("invalid element at 1:4 cause expected '>' not '/' at 1:8".to_string()));
    assert!(p.next().is_none());
}

#[test]
fn element_err_12() {
    let mut p = Tokenizer::from("<svg:/>");
    assert_eq!(to_test_token(p.next().unwrap()), Token::Error("invalid element at 1:1 cause invalid name token".to_string()));
    assert!(p.next().is_none());
}

#[test]
fn element_err_13() {
    let mut p = Tokenizer::from("\
<root>
</root>
</root>");
    assert_eq!(to_test_token(p.next().unwrap()), Token::ElementStart("", "root", 0..5));
    assert_eq!(to_test_token(p.next().unwrap()), Token::ElementEnd(ElementEnd::Open, 5..6));
    assert_eq!(to_test_token(p.next().unwrap()), Token::Text("\n", 6..7));
    assert_eq!(to_test_token(p.next().unwrap()), Token::ElementEnd(ElementEnd::Close("", "root"), 7..14));
    assert_eq!(to_test_token(p.next().unwrap()), Token::Error("unknown token at 3:1".to_string()));
    assert!(p.next().is_none());
}

#[test]
fn element_err_14() {
    let mut p = Tokenizer::from("<-svg/>");
    assert_eq!(to_test_token(p.next().unwrap()), Token::Error("invalid element at 1:1 cause invalid name token".to_string()));
    assert!(p.next().is_none());
}

#[test]
fn element_err_15() {
    let mut p = Tokenizer::from("<svg:-svg/>");
    assert_eq!(to_test_token(p.next().unwrap()), Token::Error("invalid element at 1:1 cause invalid name token".to_string()));
    assert!(p.next().is_none());
}

#[test]
fn element_err_16() {
    let mut p = Tokenizer::from("<svg::svg/>");
    assert_eq!(to_test_token(p.next().unwrap()), Token::Error("invalid element at 1:1 cause invalid name token".to_string()));
    assert!(p.next().is_none());
}

#[test]
fn element_err_17() {
    let mut p = Tokenizer::from("<svg:s:vg/>");
    assert_eq!(to_test_token(p.next().unwrap()), Token::Error("invalid element at 1:1 cause invalid name token".to_string()));
    assert!(p.next().is_none());
}

#[test]
fn element_err_18() {
    let mut p = Tokenizer::from("<::svg/>");
    assert_eq!(to_test_token(p.next().unwrap()), Token::Error("invalid element at 1:1 cause invalid name token".to_string()));
    assert!(p.next().is_none());
}

#[test]
fn element_err_19() {
    let mut p = Tokenizer::from("<a><");
    assert_eq!(to_test_token(p.next().unwrap()), Token::ElementStart("", "a", 0..2));
    assert_eq!(to_test_token(p.next().unwrap()), Token::ElementEnd(ElementEnd::Open, 2..3));
    assert_eq!(to_test_token(p.next().unwrap()), Token::Error("unknown token at 1:4".to_string()));
    assert!(p.next().is_none());
}

#[test]
fn attribute_01() {
    let mut p = Tokenizer::from("<a ax=\"test\"/>");
    assert_eq!(to_test_token(p.next().unwrap()), Token::ElementStart("", "a", 0..2));
    assert_eq!(to_test_token(p.next().unwrap()), Token::Attribute("", "ax", "test", 3..12));
    assert_eq!(to_test_token(p.next().unwrap()), Token::ElementEnd(ElementEnd::Empty, 12..14));
    assert!(p.next().is_none());
}

#[test]
fn attribute_02() {
    let mut p = Tokenizer::from("<a ax='test'/>");
    assert_eq!(to_test_token(p.next().unwrap()), Token::ElementStart("", "a", 0..2));
    assert_eq!(to_test_token(p.next().unwrap()), Token::Attribute("", "ax", "test", 3..12));
    assert_eq!(to_test_token(p.next().unwrap()), Token::ElementEnd(ElementEnd::Empty, 12..14));
    assert!(p.next().is_none());
}

#[test]
fn attribute_03() {
    let mut p = Tokenizer::from("<a b='test1' c=\"test2\"/>");
    assert_eq!(to_test_token(p.next().unwrap()), Token::ElementStart("", "a", 0..2));
    assert_eq!(to_test_token(p.next().unwrap()), Token::Attribute("", "b", "test1", 3..12));
    assert_eq!(to_test_token(p.next().unwrap()), Token::Attribute("", "c", "test2", 13..22));
    assert_eq!(to_test_token(p.next().unwrap()), Token::ElementEnd(ElementEnd::Empty, 22..24));
    assert!(p.next().is_none());
}

#[test]
fn attribute_04() {
    let mut p = Tokenizer::from("<a b='\"test1\"' c=\"'test2'\"/>");
    assert_eq!(to_test_token(p.next().unwrap()), Token::ElementStart("", "a", 0..2));
    assert_eq!(to_test_token(p.next().unwrap()), Token::Attribute("", "b", "\"test1\"", 3..14));
    assert_eq!(to_test_token(p.next().unwrap()), Token::Attribute("", "c", "'test2'", 15..26));
    assert_eq!(to_test_token(p.next().unwrap()), Token::ElementEnd(ElementEnd::Empty, 26..28));
    assert!(p.next().is_none());
}

#[test]
fn attribute_05() {
    let mut p = Tokenizer::from("<c a=\"test1' c='test2\" b='test1\" c=\"test2'/>");
    assert_eq!(to_test_token(p.next().unwrap()), Token::ElementStart("", "c", 0..2));
    assert_eq!(to_test_token(p.next().unwrap()), Token::Attribute("", "a", "test1' c='test2", 3..22));
    assert_eq!(to_test_token(p.next().unwrap()), Token::Attribute("", "b", "test1\" c=\"test2", 23..42));
    assert_eq!(to_test_token(p.next().unwrap()), Token::ElementEnd(ElementEnd::Empty, 42..44));
    assert!(p.next().is_none());
}

#[test]
fn attribute_06() {
    let mut p = Tokenizer::from("<c   a   =    'test1'     />");
    assert_eq!(to_test_token(p.next().unwrap()), Token::ElementStart("", "c", 0..2));
    assert_eq!(to_test_token(p.next().unwrap()), Token::Attribute("", "a", "test1", 5..21));
    assert_eq!(to_test_token(p.next().unwrap()), Token::ElementEnd(ElementEnd::Empty, 26..28));
    assert!(p.next().is_none());
}

#[test]
fn attribute_07() {
    let mut p = Tokenizer::from("<c q:a='b'/>");
    assert_eq!(to_test_token(p.next().unwrap()), Token::ElementStart("", "c", 0..2));
    assert_eq!(to_test_token(p.next().unwrap()), Token::Attribute("q", "a", "b", 3..10));
    assert_eq!(to_test_token(p.next().unwrap()), Token::ElementEnd(ElementEnd::Empty, 10..12));
    assert!(p.next().is_none());
}

#[test]
fn attribute_err_01() {
    let mut p = Tokenizer::from("<c az=test>");
    assert_eq!(to_test_token(p.next().unwrap()), Token::ElementStart("", "c", 0..2));
    assert_eq!(to_test_token(p.next().unwrap()), Token::Error("invalid attribute at 1:3 cause expected quote mark not 't' at 1:7".to_string()));
    assert!(p.next().is_none());
}

#[test]
fn attribute_err_02() {
    let mut p = Tokenizer::from("<c a>");
    assert_eq!(to_test_token(p.next().unwrap()), Token::ElementStart("", "c", 0..2));
    assert_eq!(to_test_token(p.next().unwrap()), Token::Error("invalid attribute at 1:3 cause expected \'=\' not \'>\' at 1:5".to_string()));
    assert!(p.next().is_none());
}

#[test]
fn attribute_err_03() {
    let mut p = Tokenizer::from("<c a/>");
    assert_eq!(to_test_token(p.next().unwrap()), Token::ElementStart("", "c", 0..2));
    assert_eq!(to_test_token(p.next().unwrap()), Token::Error("invalid attribute at 1:3 cause expected '=' not '/' at 1:5".to_string()));
    assert!(p.next().is_none());
}

#[test]
fn attribute_err_04() {
    let mut p = Tokenizer::from("<c a='b' q/>");
    assert_eq!(to_test_token(p.next().unwrap()), Token::ElementStart("", "c", 0..2));
    assert_eq!(to_test_token(p.next().unwrap()), Token::Attribute("", "a", "b", 3..8));
    assert_eq!(to_test_token(p.next().unwrap()), Token::Error("invalid attribute at 1:9 cause expected '=' not '/' at 1:11".to_string()));
    assert!(p.next().is_none());
}

#[test]
fn attribute_err_05() {
    let mut p = Tokenizer::from("<c a='<'/>");
    assert_eq!(to_test_token(p.next().unwrap()), Token::ElementStart("", "c", 0..2));
    assert_eq!(to_test_token(p.next().unwrap()), Token::Error("invalid attribute at 1:3 cause expected ''' not '<' at 1:7".to_string()));
    assert!(p.next().is_none());
}

#[test]
fn attribute_err_06() {
    let mut p = Tokenizer::from("<c a='\0'/>");
    assert_eq!(to_test_token(p.next().unwrap()), Token::ElementStart("", "c", 0..2));
    assert_eq!(to_test_token(p.next().unwrap()), Token::Error("invalid attribute at 1:3 cause a non-XML character '\\0' found at 1:7".to_string()));
    assert!(p.next().is_none());
}

#[test]
fn attribute_err_07() {
    let mut p = Tokenizer::from("<c a='v'b='v'/>");
    assert_eq!(to_test_token(p.next().unwrap()), Token::ElementStart("", "c", 0..2));
    assert_eq!(to_test_token(p.next().unwrap()), Token::Attribute("", "a", "v", 3..8));
    assert_eq!(to_test_token(p.next().unwrap()), Token::Error("invalid attribute at 1:9 cause expected space not 'b' at 1:9".to_string()));
    assert!(p.next().is_none());
}
