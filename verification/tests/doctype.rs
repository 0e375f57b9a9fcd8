use xmlparser::Tokenizer;


type Range = ::std::ops::Range<usize>;

#[derive(PartialEq, Debug)]
pub enum Token<'a> {
    Declaration(&'a str, Option<&'a str>, Option<bool>, Range),
    PI(&'a str, Option<&'a str>, Range),
    Comment(&'a str, Range),
    DtdStart(&'a str, Option<ExternalId<'a>>, Range),
    EmptyDtd(&'a str, Option<ExternalId<'a>>, Range),
    EntityDecl(&'a str, EntityDefinition<'a>, Range),
    DtdEnd(Range),
    ElementStart(&'a str, &'a str, Range),
    Attribute(&'a str, &'a str, &'a str, Range),
    ElementEnd(ElementEnd<'a>, Range),
    Text(&'a str, Range),
    Cdata(&'a str, Range),
    Error(String),
}

#[derive(PartialEq, Debug)]
pub enum ElementEnd<'a> {
    Open,
    Close(&'a str, &'a str),
    Empty,
}

#[derive(PartialEq, Debug)]
pub enum ExternalId<'a> {
    System(&'a str),
    Public(&'a str, &'a str),
}

#[derive(PartialEq, Debug)]
pub enum EntityDefinition<'a> {
    EntityValue(&'a str),
    ExternalId(ExternalId<'a>),
}

pub fn to_test_token(token: Result<xmlparser::Token, xmlparser::Error>) -> Token {
    match token {
        Ok(xmlparser::Token::Declaration { version, encoding, standalone, span }) => {
            Token::Declaration(
                version.as_str(),
                encoding.map(|v| v.as_str()),
                standalone,
                span.range(),
            )
        }
        Ok(xmlparser::Token::ProcessingInstruction { target, content, span }) => {
            Token::PI(
                target.as_str(),
                content.map(|v| v.as_str()),
                span.range(),
            )
        }
        Ok(xmlparser::Token::Comment { text, span }) => Token::Comment(text.as_str(), span.range()),
        Ok(xmlparser::Token::DtdStart { name, external_id, span }) => {
            Token::DtdStart(
                name.as_str(),
                external_id.map(|v| to_test_external_id(v)),
                span.range(),
            )
        }
        Ok(xmlparser::Token::EmptyDtd { name, external_id, span }) => {
            Token::EmptyDtd(
                name.as_str(),
                external_id.map(|v| to_test_external_id(v)),
                span.range(),
            )
        }
        Ok(xmlparser::Token::EntityDeclaration { name, definition, span }) => {
            Token::EntityDecl(
                name.as_str(),
                match definition {
                    xmlparser::EntityDefinition::EntityValue(name) => {
                        EntityDefinition::EntityValue(name.as_str())
                    }
                    xmlparser::EntityDefinition::ExternalId(id) => {
                        EntityDefinition::ExternalId(to_test_external_id(id))
                    }
                },
                span.range(),
            )
        }
        Ok(xmlparser::Token::DtdEnd { span }) => Token::DtdEnd(span.range()),
        Ok(xmlparser::Token::ElementStart { prefix, local, span }) => {
            Token::ElementStart(prefix.as_str(), local.as_str(), span.range())
        }
        Ok(xmlparser::Token::Attribute { prefix, local, value, span }) => {
            Token::Attribute(prefix.as_str(), local.as_str(), value.as_str(), span.range())
        }
        Ok(xmlparser::Token::ElementEnd { end, span }) => {
            Token::ElementEnd(
                match end {
                    xmlparser::ElementEnd::Open => ElementEnd::Open,
                    xmlparser::ElementEnd::Close(prefix, local) => {
                        ElementEnd::Close(prefix.as_str(), local.as_str())
                    }
                    xmlparser::ElementEnd::Empty => ElementEnd::Empty,
                },
                span.range()
            )
        }
        Ok(xmlparser::Token::Text { text }) => Token::Text(text.as_str(), text.range()),
        Ok(xmlparser::Token::Cdata { text, span }) => Token::Cdata(text.as_str(), span.range()),
        Err(ref e) => Token::Error(e.to_string()),
    }
}

fn to_test_external_id(id: xmlparser::ExternalId) -> ExternalId {
    match id {
        xmlparser::ExternalId::System(name) => {
            ExternalId::System(name.as_str())
        }
        xmlparser::ExternalId::Public(name, value) => {
            ExternalId::Public(name.as_str(), value.as_str())
        }
    }
}

#[test]
fn dtd_01() {
    let mut p = Tokenizer::from("<!DOCTYPE greeting SYSTEM \"hello.dtd\">");
    assert_eq!(to_test_token(p.next().unwrap()), Token::EmptyDtd("greeting", Some(ExternalId::System("hello.dtd")), 0..38));
    assert!(p.next().is_none());
}

#[test]
fn dtd_02() {
    let mut p = Tokenizer::from("<!DOCTYPE greeting PUBLIC \"hello.dtd\" \"goodbye.dtd\">");
    assert_eq!(to_test_token(p.next().unwrap()), Token::EmptyDtd("greeting", Some(ExternalId::Public("hello.dtd", "goodbye.dtd")), 0..52));
    assert!(p.next().is_none());
}

#[test]
fn dtd_03() {
    let mut p = Tokenizer::from("<!DOCTYPE greeting SYSTEM 'hello.dtd'>");
    assert_eq!(to_test_token(p.next().unwrap()), Token::EmptyDtd("greeting", Some(ExternalId::System("hello.dtd")), 0..38));
    assert!(p.next().is_none());
}

#[test]
fn dtd_04() {
    let mut p = Tokenizer::from("<!DOCTYPE greeting>");
    assert_eq!(to_test_token(p.next().unwrap()), Token::EmptyDtd("greeting", None, 0..19));
    assert!(p.next().is_none());
}

#[test]
fn dtd_05() {
    let mut p = Tokenizer::from("<!DOCTYPE greeting []>");
    assert_eq!(to_test_token(p.next().unwrap()), Token::DtdStart("greeting", None, 0..20));
    assert_eq!(to_test_token(p.next().unwrap()), Token::DtdEnd(20..22));
    assert!(p.next().is_none());
}

#[test]
fn dtd_06() {
    let mut p = Tokenizer::from("<!DOCTYPE greeting><a/>");
    assert_eq!(to_test_token(p.next().unwrap()), Token::EmptyDtd("greeting", None, 0..19));
    assert_eq!(to_test_token(p.next().unwrap()), Token::ElementStart("", "a", 19..21));
    assert_eq!(to_test_token(p.next().unwrap()), Token::ElementEnd(ElementEnd::Empty, 21..23));
    assert!(p.next().is_none());
}

#[test]
fn dtd_07() {
    let mut p = Tokenizer::from("<!DOCTYPE greeting [] >");
    assert_eq!(to_test_token(p.next().unwrap()), Token::DtdStart("greeting", None, 0..20));
    assert_eq!(to_test_token(p.next().unwrap()), Token::DtdEnd(20..23));
    assert!(p.next().is_none());
}

#[test]
fn dtd_08() {
    let mut p = Tokenizer::from("<!DOCTYPE greeting [ ] >");
    assert_eq!(to_test_token(p.next().unwrap()), Token::DtdStart("greeting", None, 0..20));
    assert_eq!(to_test_token(p.next().unwrap()), Token::DtdEnd(21..24));
    assert!(p.next().is_none());
}

#[test]
fn dtd_entity_01() {
    let mut p = Tokenizer::from("<!DOCTYPE svg [
    <!ENTITY ns_extend \"http://ns.adobe.com/Extensibility/1.0/\">
]>");
    assert_eq!(to_test_token(p.next().unwrap()), Token::DtdStart("svg", None, 0..15));
    assert_eq!(to_test_token(p.next().unwrap()), Token::EntityDecl(
        "ns_extend",
        EntityDefinition::EntityValue("http://ns.adobe.com/Extensibility/1.0/"),
        20..80,
    ));
    assert_eq!(to_test_token(p.next().unwrap()), Token::DtdEnd(81..83));
    assert!(p.next().is_none());
}

#[test]
fn dtd_entity_02() {
    let mut p = Tokenizer::from("<!DOCTYPE svg [
    <!ENTITY Pub-Status \"This is a pre-release of the
specification.\">
]>");
    assert_eq!(to_test_token(p.next().unwrap()), Token::DtdStart("svg", None, 0..15));
    assert_eq!(to_test_token(p.next().unwrap()), Token::EntityDecl(
        "Pub-Status",
        EntityDefinition::EntityValue("This is a pre-release of the\nspecification."),
        20..86,
    ));
    assert_eq!(to_test_token(p.next().unwrap()), Token::DtdEnd(87..89));
    assert!(p.next().is_none());
}

#[test]
fn dtd_entity_03() {
    let mut p = Tokenizer::from("<!DOCTYPE svg [
    <!ENTITY open-hatch SYSTEM \"http://www.textuality.com/boilerplate/OpenHatch.xml\">
]>");
    assert_eq!(to_test_token(p.next().unwrap()), Token::DtdStart("svg", None, 0..15));
    assert_eq!(to_test_token(p.next().unwrap()), Token::EntityDecl(
        "open-hatch",
        EntityDefinition::ExternalId(ExternalId::System("http://www.textuality.com/boilerplate/OpenHatch.xml")),
        20..101,
    ));
    assert_eq!(to_test_token(p.next().unwrap()), Token::DtdEnd(102..104));
    assert!(p.next().is_none());
}

#[test]
fn dtd_entity_04() {
    let mut p = Tokenizer::from("<!DOCTYPE svg [
    <!ENTITY open-hatch
             PUBLIC \"-//Textuality//TEXT Standard open-hatch boilerplate//EN\"
             \"http://www.textuality.com/boilerplate/OpenHatch.xml\">
]>");
    assert_eq!(to_test_token(p.next().unwrap()), Token::DtdStart("svg", None, 0..15));
    assert_eq!(to_test_token(p.next().unwrap()), Token::EntityDecl(
        "open-hatch",
        EntityDefinition::ExternalId(
            ExternalId::Public(
                "-//Textuality//TEXT Standard open-hatch boilerplate//EN",
                "http://www.textuality.com/boilerplate/OpenHatch.xml"
            )
        ),
        20..185,
    ));
    assert_eq!(to_test_token(p.next().unwrap()), Token::DtdEnd(186..188));
    assert!(p.next().is_none());
}

#[test]
fn dtd_entity_05() {
    let mut p = Tokenizer::from("<!DOCTYPE svg [
    <!ENTITY hatch-pic SYSTEM \"../grafix/OpenHatch.gif\" NDATA gif >
]>");
    assert_eq!(to_test_token(p.next().unwrap()), Token::DtdStart("svg", None, 0..15));
    assert_eq!(to_test_token(p.next().unwrap()), Token::EntityDecl(
        "hatch-pic",
        EntityDefinition::ExternalId(ExternalId::System("../grafix/OpenHatch.gif")),
        20..83,
    ));
    assert_eq!(to_test_token(p.next().unwrap()), Token::DtdEnd(84..86));
    assert!(p.next().is_none());
}

#[test]
fn dtd_entity_06() {
    let mut p = Tokenizer::from("<!DOCTYPE svg [
    <!ELEMENT sgml ANY>
    <!ENTITY ns_extend \"http://ns.adobe.com/Extensibility/1.0/\">
    <!NOTATION example1SVG-rdf SYSTEM \"example1.svg.rdf\">
    <!ATTLIST img data ENTITY #IMPLIED>
]>");
    assert_eq!(to_test_token(p.next().unwrap()), Token::DtdStart("svg", None, 0..15));
    assert_eq!(to_test_token(p.next().unwrap()), Token::EntityDecl(
        "ns_extend",
        EntityDefinition::EntityValue("http://ns.adobe.com/Extensibility/1.0/"),
        44..104
    ));
    assert_eq!(to_test_token(p.next().unwrap()), Token::DtdEnd(203..205));
    assert!(p.next().is_none());
}

#[test]
fn dtd_err_01() {
    let mut p = Tokenizer::from("<!DOCTYPEEG[<!ENTITY%ETT\u{000a}SSSSSSSS<D_IDYT;->\u{000a}<");
    assert_eq!(to_test_token(p.next().unwrap()), Token::Error("invalid DTD at 1:1 cause expected space not 'E' at 1:10".to_string()));
    assert!(p.next().is_none());
}

#[test]
fn dtd_err_02() {
    let mut p = Tokenizer::from("<!DOCTYPE s [<!ENTITY % name S YSTEM");
    assert_eq!(to_test_token(p.next().unwrap()), Token::DtdStart("s", None, 0..13));
    assert_eq!(to_test_token(p.next().unwrap()), Token::Error("invalid DTD entity at 1:14 cause invalid ExternalID".to_string()));
    assert!(p.next().is_none());
}

#[test]
fn dtd_err_03() {
    let mut p = Tokenizer::from("<!DOCTYPE s [<!ENTITY % name B");
    assert_eq!(to_test_token(p.next().unwrap()), Token::DtdStart("s", None, 0..13));
    assert_eq!(to_test_token(p.next().unwrap()), Token::Error("invalid DTD entity at 1:14 cause \
                  expected '\"', ''', 'S', 'P' not 'B' at 1:30".to_string()));
    assert!(p.next().is_none());
}

#[test]
fn dtd_err_04() {
    let mut p = Tokenizer::from("<!DOCTYPE s []");
    assert_eq!(to_test_token(p.next().unwrap()), Token::DtdStart("s", None, 0..13));
    assert_eq!(to_test_token(p.next().unwrap()), Token::Error("invalid DTD at 1:14 cause unexpected end of stream".to_string()));
    assert!(p.next().is_none());
}

#[test]
fn dtd_err_05() {
    let mut p = Tokenizer::from("<!DOCTYPE s [] !");
    assert_eq!(to_test_token(p.next().unwrap()), Token::DtdStart("s", None, 0..13));
    assert_eq!(to_test_token(p.next().unwrap()), Token::Error("invalid DTD at 1:14 cause expected '>' not '!' at 1:16".to_string()));
    assert!(p.next().is_none());
}
