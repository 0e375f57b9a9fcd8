//! The constructs of XML as functions of a stream: what each one consumes,
//! what token it yields and how it fails.

use vstd::prelude::*;
use vstd::utf8::*;
use crate::cursor::{bytes_other_than, digit_bytes, Cursor};
use crate::encoding::{ascii, is_ascii_bytes, lemma_ascii_run_boundary, lemma_ascii_text};
use crate::error::{Fault, StreamFault};
use crate::strspan::Slice;
use crate::token::{Ending, EntityDef, ExternalRef, Lexeme};
use crate::xmlchar::{is_digit_byte, is_letter_byte};

verus! {

/// The result of reading a construct: the stream behind it and what was
/// read, or the fault.
pub type Parsed<T> = Result<(Cursor, T), StreamFault>;

/// `needle` occurs in `hay`.
pub open spec fn occurs(hay: Seq<u8>, needle: Seq<u8>) -> bool {
    exists|i: int| occurs_at(hay, needle, i)
}

/// `needle` stands in `hay` at `i`.
pub open spec fn occurs_at(hay: Seq<u8>, needle: Seq<u8>, i: int) -> bool {
    0 <= i && i + needle.len() <= hay.len() && hay.subrange(i, i + needle.len()) == needle
}

/// An ASCII text that stands at the position of a stream can be stepped over.
pub proof fn lemma_starts_with_ascii(c: Cursor, text: Seq<char>)
    requires
        c.wf(),
        is_ascii_chars(text),
        c.starts_with(encode_utf8(text)),
    ensures
        encode_utf8(text).len() == text.len(),
        c.advance(text.len() as int).wf(),
        c.advance(text.len() as int).follows(c),
        forall|i: int| 0 <= i < text.len() ==> c.bytes[c.pos + i] == text[i] as u8,
{
    lemma_ascii_text(text);
    let bytes = encode_utf8(text);
    assert forall|i: int| 0 <= i < text.len() implies c.bytes[c.pos + i] == text[i] as u8 by {
        assert(c.bytes.subrange(c.pos, c.pos + bytes.len())[i] == bytes[i]);
    }
    assert forall|j: int| c.pos <= j < c.pos + text.len() implies c.bytes[j] < 0x80 by {
        assert(c.bytes[c.pos + (j - c.pos)] == text[j - c.pos] as u8);
        assert(is_ascii_bytes(ascii(text)));
        assert(ascii(text)[j - c.pos] < 0x80);
    }
    lemma_ascii_run_boundary(c.bytes, c.pos, text.len() as int);
}

/// Where `<` stands at the position, the stream starts with the markup that
/// the next byte makes of it.
pub proof fn lemma_markup(c: Cursor)
    requires
        c.wf(),
        !c.at_end(),
        c.curr() == 0x3C,
    ensures
        c.starts_with(encode_utf8("<"@)),
        c.next_byte() == Ok::<u8, StreamFault>(0x2F) ==> c.starts_with(encode_utf8("</"@)),
        c.next_byte() == Ok::<u8, StreamFault>(0x3F) ==> c.starts_with(encode_utf8("<?"@)),
{
    reveal_strlit("<");
    reveal_strlit("</");
    reveal_strlit("<?");
    lemma_ascii_text("<"@);
    lemma_ascii_text("</"@);
    lemma_ascii_text("<?"@);
    assert(c.bytes.subrange(c.pos, c.pos + 1) =~= encode_utf8("<"@));
    if c.next_byte() == Ok::<u8, StreamFault>(0x2F) {
        assert(c.bytes.subrange(c.pos, c.pos + 2) =~= encode_utf8("</"@));
    }
    if c.next_byte() == Ok::<u8, StreamFault>(0x3F) {
        assert(c.bytes.subrange(c.pos, c.pos + 2) =~= encode_utf8("<?"@));
    }
}

/// The characters up to the text `text`, which starts with `first`.
pub open spec fn chars_up_to(first: char, text: Seq<char>) -> spec_fn(Cursor, char) -> bool {
    |c: Cursor, ch: char| !(ch == first && c.starts_with(encode_utf8(text)))
}

/// The characters of an attribute value in the quotes `quote`: all but the
/// quote and `<`.
pub open spec fn attribute_value_chars(quote: u8) -> spec_fn(Cursor, char) -> bool {
    |c: Cursor, ch: char| ch != (quote as char) && ch != '<'
}

/// The characters of character data: all but `<`.
pub open spec fn text_chars() -> spec_fn(Cursor, char) -> bool {
    |c: Cursor, ch: char| ch != '<'
}

/// The bytes of an encoding name: letters, digits, `.`, `-`, `_`.
pub open spec fn encoding_name_bytes() -> spec_fn(u8) -> bool {
    |b: u8| is_letter_byte(b) || is_digit_byte(b) || b == 0x2E || b == 0x2D || b == 0x5F
}

/// The bytes that may follow the name and the external identifier of a
/// document type declaration: `[` and `>`.
pub open spec fn doctype_ends() -> Seq<u8> {
    seq![0x5Bu8, 0x3Eu8]
}

/// The bytes that a version number may go on with behind `1.`: the digits.
pub open spec fn version_digits() -> Seq<u8> {
    seq![0x30u8, 0x31u8, 0x32u8, 0x33u8, 0x34u8, 0x35u8, 0x36u8, 0x37u8, 0x38u8, 0x39u8]
}

/// The bytes that an entity definition may start with: `"`, `'`, `S`, `P`.
pub open spec fn entity_def_starts() -> Seq<u8> {
    seq![0x22u8, 0x27u8, 0x53u8, 0x50u8]
}

/// The white space between the parts of an XML declaration: it may be
/// missing only before `?>` and at the end of the stream.
pub open spec fn declaration_space(c: Cursor) -> Result<Cursor, StreamFault> {
    if c.starts_with_space() {
        Ok(c.skip_spaces())
    } else if !c.starts_with(encode_utf8("?>"@)) && !c.at_end() {
        Err(StreamFault::InvalidSpace(c.curr(), c.text_pos()))
    } else {
        Ok(c)
    }
}

/// `VersionInfo ::= S 'version' Eq ("'" VersionNum "'" | '"' VersionNum '"')`,
/// `VersionNum ::= '1.' [0-9]+`. What stands in the place of the closing
/// quote fails first, as `consume_byte` says. A number that is closed
/// without a digit behind `1.` fails with `InvalidCharMultiple`: the quote
/// was found where one of the digits was expected.
pub open spec fn version_info(c: Cursor) -> Parsed<Slice> {
    match c.skip_spaces().skip_string(encode_utf8("version"@)) {
        Err(e) => Err(e),
        Ok(c1) => match c1.consume_eq() {
            Err(e) => Err(e),
            Ok(c2) => match c2.consume_quote() {
                Err(e) => Err(e),
                Ok((c3, quote)) => match c3.skip_string(encode_utf8("1."@)) {
                    Err(e) => Err(e),
                    Ok(c4) => {
                        let c5 = c4.skip_bytes_while(digit_bytes());
                        match c5.consume_byte(quote) {
                            Err(e) => Err(e),
                            Ok(c6) => if c5.pos == c4.pos {
                                Err(
                                    StreamFault::InvalidCharMultiple(
                                        quote,
                                        version_digits(),
                                        c4.text_pos(),
                                    ),
                                )
                            } else {
                                Ok((c6, c5.slice_back(c3.pos)))
                            },
                        }
                    },
                },
            },
        },
    }
}

/// `EncodingDecl ::= 'encoding' Eq ('"' EncName '"' | "'" EncName "'" )`,
/// `EncName ::= [A-Za-z] ([A-Za-z0-9._] | '-')*`, where it is there. What
/// stands in the place of the closing quote fails first, as `consume_byte`
/// says. A name that is closed but is empty or starts with a digit, `.`,
/// `-` or `_` fails with `InvalidName`.
pub open spec fn encoding_decl(c: Cursor) -> Parsed<Option<Slice>> {
    if !c.starts_with(encode_utf8("encoding"@)) {
        Ok((c, None))
    } else {
        match c.advance(8).consume_eq() {
            Err(e) => Err(e),
            Ok(c1) => match c1.consume_quote() {
                Err(e) => Err(e),
                Ok((c2, quote)) => {
                    let c3 = c2.skip_bytes_while(encoding_name_bytes());
                    match c3.consume_byte(quote) {
                        Err(e) => Err(e),
                        Ok(c4) => if c3.pos == c2.pos || !is_letter_byte(c2.curr()) {
                            Err(StreamFault::InvalidName)
                        } else {
                            Ok((c4, Some(c3.slice_back(c2.pos))))
                        },
                    }
                },
            },
        }
    }
}

/// `SDDecl ::= 'standalone' Eq (("'" ('yes' | 'no') "'") | ('"' ('yes' | 'no') '"'))`,
/// where it is there.
pub open spec fn standalone_decl(c: Cursor) -> Parsed<Option<bool>> {
    if !c.starts_with(encode_utf8("standalone"@)) {
        Ok((c, None))
    } else {
        match c.advance(10).consume_eq() {
            Err(e) => Err(e),
            Ok(c1) => match c1.consume_quote() {
                Err(e) => Err(e),
                Ok((c2, quote)) => match c2.consume_name() {
                    Err(e) => Err(e),
                    Ok((c3, value)) => {
                        if value.text() != "yes"@ && value.text() != "no"@ {
                            Err(StreamFault::InvalidString("yes', 'no"@, c3.text_pos_from(c2.pos)))
                        } else {
                            match c3.consume_byte(quote) {
                                Err(e) => Err(e),
                                Ok(c4) => Ok((c4, Some(value.text() == "yes"@))),
                            }
                        }
                    },
                },
            },
        }
    }
}

/// `XMLDecl ::= '<?xml' VersionInfo EncodingDecl? SDDecl? S? '?>'`, from a
/// stream that starts with `<?xml` and a space.
#[verifier::opaque]
pub open spec fn declaration(c: Cursor) -> Parsed<Lexeme> {
    match version_info(c.advance(6)) {
        Err(e) => Err(e),
        Ok((c1, version)) => match declaration_space(c1) {
            Err(e) => Err(e),
            Ok(c2) => match encoding_decl(c2) {
                Err(e) => Err(e),
                Ok((c3, encoding)) => match (if encoding is Some {
                    declaration_space(c3)
                } else {
                    Ok(c3)
                }) {
                    Err(e) => Err(e),
                    Ok(c4) => match standalone_decl(c4) {
                        Err(e) => Err(e),
                        Ok((c5, standalone)) => match c5.skip_spaces().skip_string(
                            encode_utf8("?>"@),
                        ) {
                            Err(e) => Err(e),
                            Ok(c6) => Ok(
                                (
                                    c6,
                                    Lexeme::Declaration {
                                        version,
                                        encoding,
                                        standalone,
                                        span: c6.slice_back(c.pos),
                                    },
                                ),
                            ),
                        },
                    },
                },
            },
        },
    }
}

/// `'<!--' ((Char - '-') | ('-' (Char - '-')))* '-->'`, from a stream that
/// starts with `<!--`: the text runs up to the first `-->`, holds no `--`
/// and does not end with `-`.
#[verifier::opaque]
pub open spec fn comment(c: Cursor) -> Parsed<Lexeme> {
    match c.advance(4).consume_chars(chars_up_to('-', "-->"@)) {
        Err(e) => Err(e),
        Ok((c1, text)) => match c1.skip_string(encode_utf8("-->"@)) {
            Err(e) => Err(e),
            Ok(c2) => if occurs(text.bytes, encode_utf8("--"@)) {
                Err(StreamFault::InvalidCommentData)
            } else if text.bytes.len() > 0 && text.bytes.last() == 0x2D {
                Err(StreamFault::InvalidCommentEnd)
            } else {
                Ok((c2, Lexeme::Comment { text, span: c2.slice_back(c.pos) }))
            },
        },
    }
}

/// `PI ::= '<?' PITarget (S (Char* - (Char* '?>' Char*)))? '?>'`, from a
/// stream that starts with `<?`. Empty content counts as none.
#[verifier::opaque]
pub open spec fn processing_instruction(c: Cursor) -> Parsed<Lexeme> {
    match c.advance(2).consume_name() {
        Err(e) => Err(e),
        Ok((c1, target)) => match c1.skip_spaces().consume_chars(chars_up_to('?', "?>"@)) {
            Err(e) => Err(e),
            Ok((c2, content)) => match c2.skip_string(encode_utf8("?>"@)) {
                Err(e) => Err(e),
                Ok(c3) => Ok(
                    (
                        c3,
                        Lexeme::ProcessingInstruction {
                            target,
                            content: if content.bytes.len() > 0 {
                                Some(content)
                            } else {
                                None
                            },
                            span: c3.slice_back(c.pos),
                        },
                    ),
                ),
            },
        },
    }
}

/// A literal in quotes: the quote, every byte up to the same quote, and
/// that quote.
pub open spec fn quoted_literal(c: Cursor) -> Parsed<Slice> {
    match c.consume_quote() {
        Err(e) => Err(e),
        Ok((c1, quote)) => {
            let c2 = c1.skip_bytes_while(bytes_other_than(quote));
            match c2.consume_byte(quote) {
                Err(e) => Err(e),
                Ok(c3) => Ok((c3, c2.slice_back(c1.pos))),
            }
        },
    }
}

/// `ExternalID ::= 'SYSTEM' S SystemLiteral | 'PUBLIC' S PubidLiteral S SystemLiteral`,
/// where it is there.
pub open spec fn external_id(c: Cursor) -> Parsed<Option<ExternalRef>> {
    let system = c.starts_with(encode_utf8("SYSTEM"@));
    if !system && !c.starts_with(encode_utf8("PUBLIC"@)) {
        Ok((c, None))
    } else {
        match c.advance(6).consume_spaces() {
            Err(e) => Err(e),
            Ok(c1) => match quoted_literal(c1) {
                Err(e) => Err(e),
                Ok((c2, first)) => if system {
                    Ok((c2, Some(ExternalRef::System(first))))
                } else {
                    match c2.consume_spaces() {
                        Err(e) => Err(e),
                        Ok(c3) => match quoted_literal(c3) {
                            Err(e) => Err(e),
                            Ok((c4, second)) => Ok((c4, Some(ExternalRef::Public(first, second)))),
                        },
                    }
                },
            },
        }
    }
}

/// `'<!DOCTYPE' S Name (S ExternalID)? S? ('[' | '>')`, from a stream that
/// starts with `<!DOCTYPE`: with `[` the declaration goes on, with `>` it
/// is empty.
#[verifier::opaque]
pub open spec fn doctype(c: Cursor) -> Parsed<Lexeme> {
    match c.advance(9).consume_spaces() {
        Err(e) => Err(e),
        Ok(c1) => match c1.consume_name() {
            Err(e) => Err(e),
            Ok((c2, name)) => match external_id(c2.skip_spaces()) {
                Err(e) => Err(e),
                Ok((c3, id)) => {
                    let c4 = c3.skip_spaces();
                    if c4.at_end() {
                        Err(StreamFault::UnexpectedEndOfStream)
                    } else if c4.curr() != 0x5B && c4.curr() != 0x3E {
                        Err(
                            StreamFault::InvalidCharMultiple(
                                c4.curr(),
                                doctype_ends(),
                                c4.text_pos(),
                            ),
                        )
                    } else {
                        let c5 = c4.advance(1);
                        let span = c5.slice_back(c.pos);
                        if c4.curr() == 0x5B {
                            Ok((c5, Lexeme::DtdStart { name, external_id: id, span }))
                        } else {
                            Ok((c5, Lexeme::EmptyDtd { name, external_id: id, span }))
                        }
                    }
                },
            },
        },
    }
}

/// `EntityDef ::= EntityValue | (ExternalID NDataDecl?)`, `PEDef ::= EntityValue | ExternalID`,
/// `NDataDecl ::= S 'NDATA' S Name`: a literal in quotes, or an external
/// identifier, after which a general entity may name a notation. `NDATA`
/// is read as such only behind white space.
pub open spec fn entity_def(c: Cursor, general: bool) -> Parsed<EntityDef> {
    if c.at_end() {
        Err(StreamFault::UnexpectedEndOfStream)
    } else if c.curr() == 0x22 || c.curr() == 0x27 {
        match quoted_literal(c) {
            Err(e) => Err(e),
            Ok((c1, value)) => Ok((c1, EntityDef::EntityValue(value))),
        }
    } else if c.curr() == 0x53 || c.curr() == 0x50 {
        match external_id(c) {
            Err(e) => Err(e),
            Ok((c1, None)) => Err(StreamFault::InvalidExternalID),
            Ok((c1, Some(id))) => {
                let c2 = c1.skip_spaces();
                if !general {
                    Ok((c1, EntityDef::ExternalId(id)))
                } else if !c1.starts_with_space() || !c2.starts_with(encode_utf8("NDATA"@)) {
                    Ok((c2, EntityDef::ExternalId(id)))
                } else {
                    match c2.advance(5).consume_spaces() {
                        Err(e) => Err(e),
                        Ok(c3) => match c3.skip_name() {
                            Err(e) => Err(e),
                            Ok(c4) => Ok((c4, EntityDef::ExternalId(id))),
                        },
                    }
                }
            },
        }
    } else {
        Err(StreamFault::InvalidCharMultiple(c.curr(), entity_def_starts(), c.text_pos()))
    }
}

/// `'<!ENTITY' S '%'? S? Name S EntityDef S? '>'`, from a stream that starts
/// with `<!ENTITY`. With `%` the entity is a parameter entity; white space
/// behind the `%` may be missing.
#[verifier::opaque]
pub open spec fn entity_decl(c: Cursor) -> Parsed<Lexeme> {
    match c.advance(8).consume_spaces() {
        Err(e) => Err(e),
        Ok(c1) => {
            let (c2, percent) = c1.try_consume_byte(0x25);
            let c3 = if percent {
                c2.skip_spaces()
            } else {
                c2
            };
            entity_named(c.pos, c3, !percent)
        },
    }
}

/// The part of an entity declaration from the name on: `Name S EntityDef S? '>'`.
/// The declaration started at `start`.
pub open spec fn entity_named(start: int, c: Cursor, general: bool) -> Parsed<Lexeme> {
    match c.consume_name() {
        Err(e) => Err(e),
        Ok((c1, name)) => match c1.consume_spaces() {
            Err(e) => Err(e),
            Ok(c2) => match entity_def(c2, general) {
                Err(e) => Err(e),
                Ok((c3, definition)) => match c3.skip_spaces().consume_byte(0x3E) {
                    Err(e) => Err(e),
                    Ok(c4) => Ok(
                        (
                            c4,
                            Lexeme::EntityDeclaration {
                                name,
                                definition,
                                span: c4.slice_back(start),
                            },
                        ),
                    ),
                },
            },
        },
    }
}

/// A declaration that is skipped: everything up to the next `>`, and that `>`.
pub open spec fn skipped_decl(c: Cursor) -> Result<Cursor, StreamFault> {
    c.skip_bytes_while(bytes_other_than(0x3E)).consume_byte(0x3E)
}

/// `CDSect ::= '<![CDATA[' (Char* - (Char* ']]>' Char*)) ']]>'`, from a
/// stream that starts with `<![CDATA[`.
#[verifier::opaque]
pub open spec fn cdata(c: Cursor) -> Parsed<Lexeme> {
    match c.advance(9).consume_chars(chars_up_to(']', "]]>"@)) {
        Err(e) => Err(e),
        Ok((c1, text)) => match c1.skip_string(encode_utf8("]]>"@)) {
            Err(e) => Err(e),
            Ok(c2) => Ok((c2, Lexeme::Cdata { text, span: c2.slice_back(c.pos) })),
        },
    }
}

/// `'<' QName`, from a stream that starts with `<`.
#[verifier::opaque]
pub open spec fn element_start(c: Cursor) -> Parsed<Lexeme> {
    match c.advance(1).consume_qname() {
        Err(e) => Err(e),
        Ok((c1, prefix, local)) => Ok(
            (c1, Lexeme::ElementStart { prefix, local, span: c1.slice_back(c.pos) }),
        ),
    }
}

/// `'</' QName S? '>'`, from a stream that starts with `</`.
#[verifier::opaque]
pub open spec fn close_element(c: Cursor) -> Parsed<Lexeme> {
    match c.advance(2).consume_qname() {
        Err(e) => Err(e),
        Ok((c1, prefix, local)) => match c1.skip_spaces().consume_byte(0x3E) {
            Err(e) => Err(e),
            Ok(c2) => Ok(
                (
                    c2,
                    Lexeme::ElementEnd {
                        end: Ending::Close(prefix, local),
                        span: c2.slice_back(c.pos),
                    },
                ),
            ),
        },
    }
}

/// What follows the name of an element or an attribute: after optional
/// white space `/>`, `>`, or, if there was white space, an attribute
/// `QName Eq AttValue`, whose value holds no `<`.
#[verifier::opaque]
pub open spec fn attribute(c: Cursor) -> Parsed<Lexeme> {
    let c1 = c.skip_spaces();
    if !c1.at_end() && c1.curr() == 0x2F {
        match c1.advance(1).consume_byte(0x3E) {
            Err(e) => Err(e),
            Ok(c2) => Ok((c2, Lexeme::ElementEnd { end: Ending::Empty, span: c2.slice_back(c1.pos) })),
        }
    } else if !c1.at_end() && c1.curr() == 0x3E {
        let c2 = c1.advance(1);
        Ok((c2, Lexeme::ElementEnd { end: Ending::Open, span: c2.slice_back(c1.pos) }))
    } else if !c.starts_with_space() {
        if !c1.at_end() {
            Err(StreamFault::InvalidSpace(c1.curr(), c1.text_pos_from(c.pos)))
        } else {
            Err(StreamFault::UnexpectedEndOfStream)
        }
    } else {
        match c1.consume_qname() {
            Err(e) => Err(e),
            Ok((c2, prefix, local)) => match c2.consume_eq() {
                Err(e) => Err(e),
                Ok(c3) => match c3.consume_quote() {
                    Err(e) => Err(e),
                    Ok((c4, quote)) => match c4.consume_chars(attribute_value_chars(quote)) {
                        Err(e) => Err(e),
                        Ok((c5, value)) => match c5.consume_byte(quote) {
                            Err(e) => Err(e),
                            Ok(c6) => Ok(
                                (
                                    c6,
                                    Lexeme::Attribute {
                                        prefix,
                                        local,
                                        value,
                                        span: c6.slice_back(c1.pos),
                                    },
                                ),
                            ),
                        },
                    },
                },
            },
        }
    }
}

/// Character data: every character up to the next `<`; it holds no `]]>`.
#[verifier::opaque]
pub open spec fn text(c: Cursor) -> Parsed<Lexeme> {
    match c.consume_chars(text_chars()) {
        Err(e) => Err(e),
        Ok((c1, text)) => if occurs(text.bytes, encode_utf8("]]>"@)) {
            Err(StreamFault::InvalidCharacterData)
        } else {
            Ok((c1, Lexeme::Text { text }))
        },
    }
}

/// The kinds of construct that a fault of the tokenizer names.
pub enum Construct {
    Declaration,
    Comment,
    ProcessingInstruction,
    Doctype,
    Entity,
    Element,
    Attribute,
    Cdata,
    CharData,
}

/// The fault of the tokenizer for a construct of kind `kind` that failed
/// with `cause` and that started at `pos`.
pub open spec fn fault(kind: Construct, cause: StreamFault, pos: crate::error::TextPos) -> Fault {
    match kind {
        Construct::Declaration => Fault::InvalidDeclaration(cause, pos),
        Construct::Comment => Fault::InvalidComment(cause, pos),
        Construct::ProcessingInstruction => Fault::InvalidPI(cause, pos),
        Construct::Doctype => Fault::InvalidDoctype(cause, pos),
        Construct::Entity => Fault::InvalidEntity(cause, pos),
        Construct::Element => Fault::InvalidElement(cause, pos),
        Construct::Attribute => Fault::InvalidAttribute(cause, pos),
        Construct::Cdata => Fault::InvalidCdata(cause, pos),
        Construct::CharData => Fault::InvalidCharData(cause, pos),
    }
}

/// A construct read at `c`: its fault names its kind and where it started.
pub open spec fn located(kind: Construct, c: Cursor, parsed: Parsed<Lexeme>) -> Result<
    (Cursor, Lexeme),
    Fault,
> {
    match parsed {
        Ok(v) => Ok(v),
        Err(e) => Err(fault(kind, e, c.text_pos_from(c.pos))),
    }
}

} // verus!
