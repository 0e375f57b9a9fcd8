//! A construct is read from its own text alone: where the stream ends at
//! the end of what was read, or anywhere behind it, the same is read.

use vstd::prelude::*;
use vstd::utf8::*;
use crate::cursor::{bytes_other_than, digit_bytes, Cursor};
use crate::encoding::lemma_ascii_text;
use crate::error::StreamFault;
use crate::grammar::{
    attribute,
    cdata,
    chars_up_to,
    close_element,
    comment,
    declaration,
    declaration_space,
    doctype,
    element_start,
    encoding_decl,
    encoding_name_bytes,
    entity_decl,
    entity_def,
    external_id,
    lemma_starts_with_ascii,
    processing_instruction,
    quoted_literal,
    standalone_decl,
    text,
    text_chars,
    version_info,
    Parsed,
};
use crate::soundness::{
    lemma_declaration_space,
    lemma_encoding_decl,
    lemma_entity_def,
    lemma_external_id,
    lemma_quoted_literal,
    lemma_standalone_decl,
    lemma_version_info,
};
use crate::token::Lexeme;

verus! {

/// What `parsed` read from a stream is what `again` read from the same
/// stream with its end at `e`.
pub open spec fn same_until<T>(parsed: Parsed<T>, again: Parsed<T>, e: int) -> bool {
    match parsed {
        Ok((after, v)) => again == Ok::<(Cursor, T), StreamFault>((after.until(e), v)),
        Err(_) => true,
    }
}

/// The end `e` lies behind what `parsed` read from `c`, within the stream.
pub open spec fn covers<T>(c: Cursor, parsed: Parsed<T>, e: int) -> bool {
    match parsed {
        Ok((after, _)) => after.pos <= e <= c.end,
        Err(_) => true,
    }
}

/// Before a text a shorter stream stops where the longer one stops.
proof fn lemma_chars_up_to(c: Cursor, first: char, text: Seq<char>, e: int)
    requires
        e <= c.end,
    ensures
        forall|x: Cursor, ch: char|
            x.follows(c) && #[trigger] chars_up_to(first, text)(x, ch) ==> chars_up_to(first, text)(
                x.until(e),
                ch,
            ),
{
}

pub proof fn lemma_until_quoted_literal(c: Cursor, e: int)
    requires
        c.wf(),
        covers(c, quoted_literal(c), e),
    ensures
        same_until(quoted_literal(c), quoted_literal(c.until(e)), e),
{
    if quoted_literal(c) is Ok {
        c.lemma_consume_quote();
        let (c1, quote) = c.consume_quote()->Ok_0;
        c1.lemma_skip_bytes_wf(bytes_other_than(quote));
        let c2 = c1.skip_bytes_while(bytes_other_than(quote));
        c2.lemma_consume_byte(quote);
        c.lemma_until_consume_quote(e);
        c1.lemma_until_skip_bytes(bytes_other_than(quote), e);
        c2.lemma_until_consume_byte(quote, e);
    }
}

pub proof fn lemma_until_version_info(c: Cursor, e: int)
    requires
        c.wf(),
        covers(c, version_info(c), e),
    ensures
        same_until(version_info(c), version_info(c.until(e)), e),
{
    if version_info(c) is Ok {
        lemma_version_info(c);
        c.lemma_skip_spaces();
        let c0 = c.skip_spaces();
        encode_utf8_valid_utf8("version"@);
        encode_utf8_valid_utf8("1."@);
        c0.lemma_skip_string(encode_utf8("version"@));
        let c1 = c0.skip_string(encode_utf8("version"@))->Ok_0;
        c1.lemma_consume_eq();
        let c2 = c1.consume_eq()->Ok_0;
        c2.lemma_consume_quote();
        let (c3, quote) = c2.consume_quote()->Ok_0;
        c3.lemma_skip_string(encode_utf8("1."@));
        let c4 = c3.skip_string(encode_utf8("1."@))->Ok_0;
        c4.lemma_skip_bytes_wf(digit_bytes());
        let c5 = c4.skip_bytes_while(digit_bytes());
        c5.lemma_consume_byte(quote);
        c.lemma_until_skip_spaces(e);
        c0.lemma_until_skip_string(encode_utf8("version"@), e);
        c1.lemma_until_consume_eq(e);
        c2.lemma_until_consume_quote(e);
        c3.lemma_until_skip_string(encode_utf8("1."@), e);
        c4.lemma_until_skip_bytes(digit_bytes(), e);
        c5.lemma_until_consume_byte(quote, e);
    }
}

pub proof fn lemma_until_encoding_decl(c: Cursor, e: int)
    requires
        c.wf(),
        covers(c, encoding_decl(c), e),
    ensures
        same_until(encoding_decl(c), encoding_decl(c.until(e)), e),
{
    if encoding_decl(c) is Ok {
        c.lemma_until_starts_with(encode_utf8("encoding"@), e);
    }
    if encoding_decl(c) is Ok && c.starts_with(encode_utf8("encoding"@)) {
        reveal_strlit("encoding");
        lemma_starts_with_ascii(c, "encoding"@);
        let c0 = c.advance(8);
        c0.lemma_consume_eq();
        let c1 = c0.consume_eq()->Ok_0;
        c1.lemma_consume_quote();
        let (c2, quote) = c1.consume_quote()->Ok_0;
        c2.lemma_skip_bytes_wf(encoding_name_bytes());
        let c3 = c2.skip_bytes_while(encoding_name_bytes());
        c3.lemma_consume_byte(quote);
        assert(c.until(e).advance(8) == c0.until(e));
        c0.lemma_until_consume_eq(e);
        c1.lemma_until_consume_quote(e);
        c2.lemma_until_skip_bytes(encoding_name_bytes(), e);
        c3.lemma_until_consume_byte(quote, e);
    }
}

pub proof fn lemma_until_standalone_decl(c: Cursor, e: int)
    requires
        c.wf(),
        covers(c, standalone_decl(c), e),
    ensures
        same_until(standalone_decl(c), standalone_decl(c.until(e)), e),
{
    if standalone_decl(c) is Ok {
        c.lemma_until_starts_with(encode_utf8("standalone"@), e);
    }
    if standalone_decl(c) is Ok && c.starts_with(encode_utf8("standalone"@)) {
        reveal_strlit("standalone");
        lemma_starts_with_ascii(c, "standalone"@);
        let c0 = c.advance(10);
        c0.lemma_consume_eq();
        let c1 = c0.consume_eq()->Ok_0;
        c1.lemma_consume_quote();
        let (c2, quote) = c1.consume_quote()->Ok_0;
        c2.lemma_consume_name();
        let (c3, value) = c2.consume_name()->Ok_0;
        c3.lemma_consume_byte(quote);
        assert(c.until(e).advance(10) == c0.until(e));
        c0.lemma_until_consume_eq(e);
        c1.lemma_until_consume_quote(e);
        c2.lemma_until_consume_name(e);
        c3.lemma_until_consume_byte(quote, e);
    }
}

/// The white space of a declaration is read again where the end is not
/// inside a `?>` that stands there.
pub proof fn lemma_until_declaration_space(c: Cursor, e: int)
    requires
        c.wf(),
        declaration_space(c) is Ok,
        declaration_space(c)->Ok_0.pos <= e <= c.end,
        c.starts_with(encode_utf8("?>"@)) ==> c.pos + 2 <= e,
    ensures
        declaration_space(c.until(e)) == Ok::<Cursor, StreamFault>(
            declaration_space(c)->Ok_0.until(e),
        ),
{
    c.lemma_skip_spaces();
    reveal_strlit("?>");
    lemma_ascii_text("?>"@);
    if c.starts_with_space() {
        c.lemma_until_skip_spaces(e);
    } else {
        c.lemma_until_starts_with(encode_utf8("?>"@), e);
    }
}

/// Where `?>` stands, the rest of a declaration is that `?>`.
proof fn lemma_declaration_rest(c: Cursor)
    requires
        c.wf(),
        c.starts_with(encode_utf8("?>"@)),
    ensures
        !c.starts_with_space(),
        !c.starts_with(encode_utf8("encoding"@)),
        !c.starts_with(encode_utf8("standalone"@)),
        c.skip_spaces() == c,
        c.skip_string(encode_utf8("?>"@)) == Ok::<Cursor, StreamFault>(c.advance(2)),
{
    reveal_strlit("?>");
    reveal_strlit("encoding");
    reveal_strlit("standalone");
    lemma_ascii_text("?>"@);
    lemma_ascii_text("encoding"@);
    lemma_ascii_text("standalone"@);
    let q = encode_utf8("?>"@);
    assert(c.bytes.subrange(c.pos, c.pos + 2)[0] == q[0]);
    assert(c.curr() == 0x3F);
    if c.starts_with(encode_utf8("encoding"@)) {
        assert(c.bytes.subrange(c.pos, c.pos + 8)[0] == encode_utf8("encoding"@)[0]);
    }
    if c.starts_with(encode_utf8("standalone"@)) {
        assert(c.bytes.subrange(c.pos, c.pos + 10)[0] == encode_utf8("standalone"@)[0]);
    }
}

pub proof fn lemma_until_declaration(c: Cursor, e: int)
    requires
        c.wf(),
        c.starts_with(encode_utf8("<?xml "@)),
        covers(c, declaration(c), e),
    ensures
        same_until(declaration(c), declaration(c.until(e)), e),
{
    reveal(declaration);
    if declaration(c) is Ok {
        reveal_strlit("<?xml ");
        lemma_starts_with_ascii(c, "<?xml "@);
        encode_utf8_valid_utf8("?>"@);
        reveal_strlit("?>");
        lemma_ascii_text("?>"@);
        let c0 = c.advance(6);
        lemma_version_info(c0);
        let (c1, version) = version_info(c0)->Ok_0;
        lemma_declaration_space(c1);
        let c2 = declaration_space(c1)->Ok_0;
        lemma_encoding_decl(c2);
        let (c3, encoding) = encoding_decl(c2)->Ok_0;
        lemma_declaration_space(c3);
        let c4 = if encoding is Some {
            declaration_space(c3)->Ok_0
        } else {
            c3
        };
        lemma_standalone_decl(c4);
        let (c5, standalone) = standalone_decl(c4)->Ok_0;
        c5.lemma_skip_spaces();
        let c5s = c5.skip_spaces();
        c5s.lemma_skip_string(encode_utf8("?>"@));
        let c6 = c5s.skip_string(encode_utf8("?>"@))->Ok_0;
        if c1.starts_with(encode_utf8("?>"@)) {
            lemma_declaration_rest(c1);
        }
        if c3.starts_with(encode_utf8("?>"@)) {
            lemma_declaration_rest(c3);
        }
        assert(c.until(e).advance(6) == c0.until(e));
        lemma_until_version_info(c0, e);
        lemma_until_declaration_space(c1, e);
        lemma_until_encoding_decl(c2, e);
        if encoding is Some {
            lemma_until_declaration_space(c3, e);
        }
        lemma_until_standalone_decl(c4, e);
        c5.lemma_until_skip_spaces(e);
        c5s.lemma_until_skip_string(encode_utf8("?>"@), e);
    }
}

pub proof fn lemma_until_comment(c: Cursor, e: int)
    requires
        c.wf(),
        c.starts_with(encode_utf8("<!--"@)),
        covers(c, comment(c), e),
    ensures
        same_until(comment(c), comment(c.until(e)), e),
{
    reveal(comment);
    if comment(c) is Ok {
        reveal_strlit("<!--");
        lemma_starts_with_ascii(c, "<!--"@);
        encode_utf8_valid_utf8("-->"@);
        let c0 = c.advance(4);
        let pred = chars_up_to('-', "-->"@);
        c0.lemma_consume_chars(pred);
        let (c1, text) = c0.consume_chars(pred)->Ok_0;
        c1.lemma_skip_string(encode_utf8("-->"@));
        assert(c.until(e).advance(4) == c0.until(e));
        lemma_chars_up_to(c0, '-', "-->"@, e);
        c1.lemma_until_starts_with(encode_utf8("-->"@), e);
        c0.lemma_until_consume_chars(pred, e);
        c1.lemma_until_skip_string(encode_utf8("-->"@), e);
    }
}

pub proof fn lemma_until_processing_instruction(c: Cursor, e: int)
    requires
        c.wf(),
        c.starts_with(encode_utf8("<?"@)),
        covers(c, processing_instruction(c), e),
    ensures
        same_until(processing_instruction(c), processing_instruction(c.until(e)), e),
{
    reveal(processing_instruction);
    if processing_instruction(c) is Ok {
        reveal_strlit("<?");
        lemma_starts_with_ascii(c, "<?"@);
        encode_utf8_valid_utf8("?>"@);
        let c0 = c.advance(2);
        c0.lemma_consume_name();
        let (c1, target) = c0.consume_name()->Ok_0;
        c1.lemma_skip_spaces();
        let c1s = c1.skip_spaces();
        let pred = chars_up_to('?', "?>"@);
        c1s.lemma_consume_chars(pred);
        let (c2, content) = c1s.consume_chars(pred)->Ok_0;
        c2.lemma_skip_string(encode_utf8("?>"@));
        assert(c.until(e).advance(2) == c0.until(e));
        c0.lemma_until_consume_name(e);
        c1.lemma_until_skip_spaces(e);
        lemma_chars_up_to(c1s, '?', "?>"@, e);
        c2.lemma_until_starts_with(encode_utf8("?>"@), e);
        c1s.lemma_until_consume_chars(pred, e);
        c2.lemma_until_skip_string(encode_utf8("?>"@), e);
    }
}

pub proof fn lemma_until_external_id(c: Cursor, e: int)
    requires
        c.wf(),
        covers(c, external_id(c), e),
    ensures
        same_until(external_id(c), external_id(c.until(e)), e),
{
    if external_id(c) is Ok {
        c.lemma_until_starts_with(encode_utf8("SYSTEM"@), e);
        c.lemma_until_starts_with(encode_utf8("PUBLIC"@), e);
    }
    let system = c.starts_with(encode_utf8("SYSTEM"@));
    if external_id(c) is Ok && (system || c.starts_with(encode_utf8("PUBLIC"@))) {
        reveal_strlit("SYSTEM");
        reveal_strlit("PUBLIC");
        if system {
            lemma_starts_with_ascii(c, "SYSTEM"@);
        } else {
            lemma_starts_with_ascii(c, "PUBLIC"@);
        }
        let c0 = c.advance(6);
        c0.lemma_consume_spaces();
        let c1 = c0.consume_spaces()->Ok_0;
        lemma_quoted_literal(c1);
        let (c2, first) = quoted_literal(c1)->Ok_0;
        assert(c.until(e).advance(6) == c0.until(e));
        if !system {
            c2.lemma_consume_spaces();
            let c3 = c2.consume_spaces()->Ok_0;
            lemma_quoted_literal(c3);
            c0.lemma_until_consume_spaces(e);
            lemma_until_quoted_literal(c1, e);
            c2.lemma_until_consume_spaces(e);
            lemma_until_quoted_literal(c3, e);
        } else {
            c0.lemma_until_consume_spaces(e);
            lemma_until_quoted_literal(c1, e);
        }
    }
}

pub proof fn lemma_until_doctype(c: Cursor, e: int)
    requires
        c.wf(),
        c.starts_with(encode_utf8("<!DOCTYPE"@)),
        covers(c, doctype(c), e),
    ensures
        same_until(doctype(c), doctype(c.until(e)), e),
{
    reveal(doctype);
    if doctype(c) is Ok {
        reveal_strlit("<!DOCTYPE");
        lemma_starts_with_ascii(c, "<!DOCTYPE"@);
        let c0 = c.advance(9);
        c0.lemma_consume_spaces();
        let c1 = c0.consume_spaces()->Ok_0;
        c1.lemma_consume_name();
        let (c2, name) = c1.consume_name()->Ok_0;
        c2.lemma_skip_spaces();
        let c2s = c2.skip_spaces();
        lemma_external_id(c2s);
        let (c3, id) = external_id(c2s)->Ok_0;
        c3.lemma_skip_spaces();
        let c4 = c3.skip_spaces();
        assert(c.until(e).advance(9) == c0.until(e));
        c0.lemma_until_consume_spaces(e);
        c1.lemma_until_consume_name(e);
        c2.lemma_until_skip_spaces(e);
        lemma_until_external_id(c2s, e);
        c3.lemma_until_skip_spaces(e);
        assert(c4.until(e).advance(1) == c4.advance(1).until(e));
    }
}

pub proof fn lemma_until_entity_def(c: Cursor, general: bool, e: int)
    requires
        c.wf(),
        covers(c, entity_def(c, general), e),
    ensures
        same_until(entity_def(c, general), entity_def(c.until(e), general), e),
{
    if entity_def(c, general) is Ok {
        if c.curr() == 0x22 || c.curr() == 0x27 {
            lemma_quoted_literal(c);
            lemma_until_quoted_literal(c, e);
        } else {
            lemma_external_id(c);
            let (c1, id) = external_id(c)->Ok_0;
            c1.lemma_skip_spaces();
            let c2 = c1.skip_spaces();
            if general && c1.starts_with_space() && c2.starts_with(encode_utf8("NDATA"@)) {
                reveal_strlit("NDATA");
                lemma_starts_with_ascii(c2, "NDATA"@);
                c2.advance(5).lemma_consume_spaces();
                c2.advance(5).consume_spaces()->Ok_0.lemma_skip_name();
            }
            lemma_until_external_id(c, e);
            if general {
                c2.lemma_until_starts_with(encode_utf8("NDATA"@), e);
                if c1.starts_with_space() && c2.starts_with(encode_utf8("NDATA"@)) {
                    reveal_strlit("NDATA");
                    lemma_starts_with_ascii(c2, "NDATA"@);
                    let c2a = c2.advance(5);
                    c2a.lemma_consume_spaces();
                    let c3 = c2a.consume_spaces()->Ok_0;
                    c3.lemma_skip_name();
                    c1.lemma_until_skip_spaces(e);
                    assert(c2.until(e).advance(5) == c2a.until(e));
                    c2a.lemma_until_consume_spaces(e);
                    c3.lemma_until_skip_name(e);
                } else {
                    c1.lemma_until_skip_spaces(e);
                }
            }
        }
    }
}

pub proof fn lemma_until_entity_decl(c: Cursor, e: int)
    requires
        c.wf(),
        c.starts_with(encode_utf8("<!ENTITY"@)),
        covers(c, entity_decl(c), e),
    ensures
        same_until(entity_decl(c), entity_decl(c.until(e)), e),
{
    reveal(entity_decl);
    if entity_decl(c) is Ok {
        reveal_strlit("<!ENTITY");
        lemma_starts_with_ascii(c, "<!ENTITY"@);
        let c0 = c.advance(8);
        c0.lemma_consume_spaces();
        let c1 = c0.consume_spaces()->Ok_0;
        c1.lemma_consume_byte(0x25);
        let (c2, percent) = c1.try_consume_byte(0x25);
        c2.lemma_skip_spaces();
        let c3 = if percent {
            c2.skip_spaces()
        } else {
            c2
        };
        c3.lemma_consume_name();
        let (c4, name) = c3.consume_name()->Ok_0;
        c4.lemma_consume_spaces();
        let c5 = c4.consume_spaces()->Ok_0;
        lemma_entity_def(c5, !percent);
        let (c6, definition) = entity_def(c5, !percent)->Ok_0;
        c6.lemma_skip_spaces();
        let c6s = c6.skip_spaces();
        c6s.lemma_consume_byte(0x3E);
        assert(c.until(e).advance(8) == c0.until(e));
        c0.lemma_until_consume_spaces(e);
        c1.lemma_until_try_consume_byte(0x25, e);
        if percent {
            c2.lemma_until_skip_spaces(e);
        }
        c3.lemma_until_consume_name(e);
        c4.lemma_until_consume_spaces(e);
        lemma_until_entity_def(c5, !percent, e);
        c6.lemma_until_skip_spaces(e);
        c6s.lemma_until_consume_byte(0x3E, e);
    }
}

pub proof fn lemma_until_cdata(c: Cursor, e: int)
    requires
        c.wf(),
        c.starts_with(encode_utf8("<![CDATA["@)),
        covers(c, cdata(c), e),
    ensures
        same_until(cdata(c), cdata(c.until(e)), e),
{
    reveal(cdata);
    if cdata(c) is Ok {
        reveal_strlit("<![CDATA[");
        lemma_starts_with_ascii(c, "<![CDATA["@);
        encode_utf8_valid_utf8("]]>"@);
        let c0 = c.advance(9);
        let pred = chars_up_to(']', "]]>"@);
        c0.lemma_consume_chars(pred);
        let (c1, text) = c0.consume_chars(pred)->Ok_0;
        c1.lemma_skip_string(encode_utf8("]]>"@));
        assert(c.until(e).advance(9) == c0.until(e));
        lemma_chars_up_to(c0, ']', "]]>"@, e);
        c1.lemma_until_starts_with(encode_utf8("]]>"@), e);
        c0.lemma_until_consume_chars(pred, e);
        c1.lemma_until_skip_string(encode_utf8("]]>"@), e);
    }
}

pub proof fn lemma_until_element_start(c: Cursor, e: int)
    requires
        c.wf(),
        c.starts_with(encode_utf8("<"@)),
        covers(c, element_start(c), e),
    ensures
        same_until(element_start(c), element_start(c.until(e)), e),
{
    reveal(element_start);
    if element_start(c) is Ok {
        reveal_strlit("<");
        lemma_starts_with_ascii(c, "<"@);
        let c0 = c.advance(1);
        assert(c.until(e).advance(1) == c0.until(e));
        c0.lemma_until_consume_qname(e);
    }
}

pub proof fn lemma_until_close_element(c: Cursor, e: int)
    requires
        c.wf(),
        c.starts_with(encode_utf8("</"@)),
        covers(c, close_element(c), e),
    ensures
        same_until(close_element(c), close_element(c.until(e)), e),
{
    reveal(close_element);
    if close_element(c) is Ok {
        reveal_strlit("</");
        lemma_starts_with_ascii(c, "</"@);
        let c0 = c.advance(2);
        c0.lemma_consume_qname();
        let (c1, prefix, local) = c0.consume_qname()->Ok_0;
        c1.lemma_skip_spaces();
        let c1s = c1.skip_spaces();
        c1s.lemma_consume_byte(0x3E);
        assert(c.until(e).advance(2) == c0.until(e));
        c0.lemma_until_consume_qname(e);
        c1.lemma_until_skip_spaces(e);
        c1s.lemma_until_consume_byte(0x3E, e);
    }
}

/// The end of a start tag is read again from its own text, though not an
/// attribute: that needs the white space before it.
pub proof fn lemma_until_tag_end(c: Cursor, e: int)
    requires
        c.wf(),
        attribute(c) is Ok,
        attribute(c)->Ok_0.1 is ElementEnd,
        attribute(c)->Ok_0.0.pos <= e <= c.end,
    ensures
        attribute(c.skip_spaces().until(e)) == Ok::<(Cursor, Lexeme), StreamFault>(
            (attribute(c)->Ok_0.0.until(e), attribute(c)->Ok_0.1),
        ),
{
    reveal(attribute);
    c.lemma_skip_spaces();
    let c1 = c.skip_spaces();
    let d = c1.until(e);
    assert(d.skip_spaces() == d) by {
        if d.pos < d.end {
            assert(!crate::xmlchar::is_space_byte(d.curr()));
        }
    }
    if c1.curr() == 0x2F {
        crate::encoding::lemma_ascii_boundary(c1.bytes, c1.pos);
        c1.advance(1).lemma_consume_byte(0x3E);
        assert(d.advance(1) == c1.advance(1).until(e));
        c1.advance(1).lemma_until_consume_byte(0x3E, e);
    } else {
        assert(d.advance(1) == c1.advance(1).until(e));
    }
}

pub proof fn lemma_until_text(c: Cursor, e: int)
    requires
        c.wf(),
        covers(c, text(c), e),
    ensures
        same_until(text(c), text(c.until(e)), e),
{
    reveal(text);
    if text(c) is Ok {
        c.lemma_consume_chars(text_chars());
        c.lemma_until_consume_chars(text_chars(), e);
    }
}

} // verus!
