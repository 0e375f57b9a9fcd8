//! Every construct that is read leaves the stream well-formed behind it, and
//! its token covers what was read.

use vstd::prelude::*;
use vstd::utf8::*;
use crate::cursor::{bytes_other_than, digit_bytes, Cursor};
use crate::encoding::lemma_ascii_text;
use crate::grammar::{
    attribute,
    attribute_value_chars,
    cdata,
    chars_up_to,
    close_element,
    comment,
    declaration,
    declaration_space,
    doctype,
    element_start,
    encoding_decl,
    encoding_name_bytes,
    entity_decl,
    entity_named,
    entity_def,
    external_id,
    lemma_starts_with_ascii,
    occurs,
    processing_instruction,
    quoted_literal,
    skipped_decl,
    standalone_decl,
    text,
    text_chars,
    version_info,
    Parsed,
};
use crate::strspan::Slice;
use crate::xmlchar::is_space_byte;
use crate::token::{Ending, Lexeme};

verus! {

/// The token `t` was read from `before` and left the stream at `after`:
/// its span is not empty, starts at or behind the old position and ends at
/// the new one.
pub open spec fn placed(t: Lexeme, before: Cursor, after: Cursor) -> bool {
    &&& before.pos <= t.span().start < after.pos
    &&& t.span() == Slice::of(before.bytes, t.span().start, after.pos)
}

/// A text token holds no `]]>`; a comment holds no `--` and does not end with `-`.
pub open spec fn clean(t: Lexeme) -> bool {
    match t {
        Lexeme::Text { text } => !occurs(text.bytes, encode_utf8("]]>"@)),
        Lexeme::Comment { text, .. } => {
            &&& !occurs(text.bytes, encode_utf8("--"@))
            &&& !(text.bytes.len() > 0 && text.bytes.last() == 0x2D)
        },
        _ => true,
    }
}

/// The part of the text `bytes` that `part` covers starts with `text`.
pub open spec fn starts_with(bytes: Seq<u8>, part: Slice, text: Seq<char>) -> bool {
    let lit = encode_utf8(text);
    &&& part.start + lit.len() <= part.end()
    &&& bytes.subrange(part.start, part.start + lit.len()) == lit
}

/// The part of the text `bytes` that `part` covers ends with `text`.
pub open spec fn ends_with(bytes: Seq<u8>, part: Slice, text: Seq<char>) -> bool {
    let lit = encode_utf8(text);
    &&& part.start + lit.len() <= part.end()
    &&& bytes.subrange(part.end() - lit.len(), part.end()) == lit
}

/// None of the bytes of `bytes` from `lo` up to `hi` is `b`.
pub open spec fn free_of(bytes: Seq<u8>, lo: int, hi: int, b: u8) -> bool {
    forall|i: int| lo <= i < hi ==> #[trigger] bytes[i] != b
}

/// The shape of a token in the text `bytes`:
///
/// - a declaration runs from `<?xml` and a space to `?>`;
/// - a processing instruction runs from `<?` to `?>`, its target follows
///   the `<?`, and its content, if there is one, is not empty and ends before
///   the `?>`;
/// - a comment is its text between `<!--` and `-->`, and character data
///   between `<![CDATA[` and `]]>` likewise;
/// - the start of a document type declaration runs from `<!DOCTYPE` to `[`,
///   an empty one to `>`; an entity declaration runs from `<!ENTITY` to `>`;
///   the end of the internal subset is `]`, white space and `>`;
/// - the start of an element is `<` and the qualified name: the prefix,
///   if there is one, a colon, and the local part;
/// - an attribute starts with its qualified name and ends with the quote
///   that stands before its value; the value holds neither that quote nor `<`;
/// - the end of a start tag is `>` or `/>`; a closing tag runs from `</`
///   and the name to `>`;
/// - a text is not empty and holds no `<`.
pub open spec fn shaped(t: Lexeme, bytes: Seq<u8>) -> bool {
    let span = t.span();
    match t {
        Lexeme::Declaration { .. } => {
            &&& starts_with(bytes, span, "<?xml "@)
            &&& ends_with(bytes, span, "?>"@)
        },
        Lexeme::ProcessingInstruction { target, content, .. } => {
            &&& starts_with(bytes, span, "<?"@)
            &&& ends_with(bytes, span, "?>"@)
            &&& target.start == span.start + 2
            &&& target.bytes.len() > 0
            &&& content is Some ==> content->0.bytes.len() > 0 && content->0.end() + 2
                == span.end()
        },
        Lexeme::Comment { text, .. } => {
            &&& starts_with(bytes, span, "<!--"@)
            &&& ends_with(bytes, span, "-->"@)
            &&& text.start == span.start + 4
            &&& text.end() + 3 == span.end()
        },
        Lexeme::DtdStart { name, .. } => {
            &&& starts_with(bytes, span, "<!DOCTYPE"@)
            &&& bytes[span.end() - 1] == 0x5B
            &&& name.bytes.len() > 0
        },
        Lexeme::EmptyDtd { name, .. } => {
            &&& starts_with(bytes, span, "<!DOCTYPE"@)
            &&& bytes[span.end() - 1] == 0x3E
            &&& name.bytes.len() > 0
        },
        Lexeme::EntityDeclaration { name, .. } => {
            &&& starts_with(bytes, span, "<!ENTITY"@)
            &&& bytes[span.end() - 1] == 0x3E
            &&& name.bytes.len() > 0
        },
        Lexeme::DtdEnd { .. } => {
            &&& bytes[span.start] == 0x5D
            &&& bytes[span.end() - 1] == 0x3E
            &&& span.start + 2 <= span.end()
            &&& forall|i: int| span.start < i < span.end() - 1 ==> is_space_byte(#[trigger] bytes[i])
        },
        Lexeme::ElementStart { prefix, local, .. } => {
            &&& bytes[span.start] == 0x3C
            &&& prefix.start == span.start + 1
            &&& qualified(bytes, prefix, local)
            &&& local.end() == span.end()
        },
        Lexeme::Attribute { prefix, local, value, .. } => {
            &&& prefix.start == span.start
            &&& qualified(bytes, prefix, local)
            &&& local.end() < value.start
            &&& value.end() + 1 == span.end()
            &&& bytes[value.end()] == 0x27 || bytes[value.end()] == 0x22
            &&& bytes[value.start - 1] == bytes[value.end()]
            &&& free_of(bytes, value.start, value.end(), bytes[value.end()])
            &&& free_of(bytes, value.start, value.end(), 0x3C)
        },
        Lexeme::ElementEnd { end, .. } => match end {
            Ending::Open => span.bytes == seq![0x3Eu8],
            Ending::Empty => span.bytes == seq![0x2Fu8, 0x3Eu8],
            Ending::Close(prefix, local) => {
                &&& starts_with(bytes, span, "</"@)
                &&& bytes[span.end() - 1] == 0x3E
                &&& prefix.start == span.start + 2
                &&& qualified(bytes, prefix, local)
                &&& forall|i: int|
                    local.end() <= i < span.end() - 1 ==> is_space_byte(#[trigger] bytes[i])
            },
        },
        Lexeme::Text { text } => {
            &&& text.bytes.len() > 0
            &&& free_of(bytes, text.start, text.end(), 0x3C)
        },
        Lexeme::Cdata { text, .. } => {
            &&& starts_with(bytes, span, "<![CDATA["@)
            &&& ends_with(bytes, span, "]]>"@)
            &&& text.start == span.start + 9
            &&& text.end() + 3 == span.end()
        },
    }
}

/// The parts of a qualified name: the local part is not empty; the prefix
/// is empty and stands where the local part starts, or a colon stands
/// between the two.
pub open spec fn qualified(bytes: Seq<u8>, prefix: Slice, local: Slice) -> bool {
    &&& local.bytes.len() > 0
    &&& if prefix.bytes.len() == 0 {
        prefix.end() == local.start || (prefix.end() + 1 == local.start && bytes[prefix.end()]
            == 0x3A)
    } else {
        prefix.end() + 1 == local.start && bytes[prefix.end()] == 0x3A
    }
}

proof fn lemma_qualified(c: Cursor)
    requires
        c.wf(),
    ensures
        match c.consume_qname() {
            Ok((_, prefix, local)) => qualified(c.bytes, prefix, local),
            Err(_) => true,
        },
{
    c.lemma_scan_qname(None);
    c.lemma_consume_qname();
}

/// A part of a construct that was read left the stream well-formed and not
/// before where it was.
pub open spec fn part_ok<T>(c: Cursor, parsed: Parsed<T>) -> bool {
    match parsed {
        Ok((after, _)) => after.succeeds(c),
        Err(_) => true,
    }
}

/// A construct that was read left the stream well-formed behind its token,
/// which starts where the construct was looked for.
pub open spec fn token_ok(c: Cursor, parsed: Parsed<Lexeme>) -> bool {
    match parsed {
        Ok((after, t)) => {
            &&& after.succeeds(c)
            &&& placed(t, c, after)
            &&& t.lies_in(c.bytes)
            &&& shaped(t, c.bytes)
            &&& clean(t)
        },
        Err(_) => true,
    }
}

pub proof fn lemma_declaration_space(c: Cursor)
    requires
        c.wf(),
    ensures
        match declaration_space(c) {
            Ok(after) => after.succeeds(c),
            Err(_) => true,
        },
{
    c.lemma_skip_spaces();
}

pub proof fn lemma_quoted_literal(c: Cursor)
    requires
        c.wf(),
    ensures
        part_ok(c, quoted_literal(c)),
        quoted_literal(c) is Ok ==> quoted_literal(c)->Ok_0.0.pos > c.pos,
        quoted_literal(c) is Ok ==> quoted_literal(c)->Ok_0.1.lies_in(
            c.bytes,
            c.pos,
            quoted_literal(c)->Ok_0.0.pos,
        ),
{
    c.lemma_consume_quote();
    if let Ok((c1, quote)) = c.consume_quote() {
        c1.lemma_skip_bytes_wf(bytes_other_than(quote));
        let c2 = c1.skip_bytes_while(bytes_other_than(quote));
        c2.lemma_consume_byte(quote);
        c1.lemma_slice_between(c2);
    }
}

pub proof fn lemma_version_info(c: Cursor)
    requires
        c.wf(),
    ensures
        part_ok(c, version_info(c)),
        version_info(c) is Ok ==> version_info(c)->Ok_0.1.lies_in(
            c.bytes,
            c.pos,
            version_info(c)->Ok_0.0.pos,
        ),
{
    c.lemma_skip_spaces();
    let c0 = c.skip_spaces();
    encode_utf8_valid_utf8("version"@);
    encode_utf8_valid_utf8("1."@);
    c0.lemma_skip_string(encode_utf8("version"@));
    if let Ok(c1) = c0.skip_string(encode_utf8("version"@)) {
        c1.lemma_consume_eq();
        if let Ok(c2) = c1.consume_eq() {
            c2.lemma_consume_quote();
            if let Ok((c3, quote)) = c2.consume_quote() {
                c3.lemma_skip_string(encode_utf8("1."@));
                if let Ok(c4) = c3.skip_string(encode_utf8("1."@)) {
                    c4.lemma_skip_bytes_wf(digit_bytes());
                    let c5 = c4.skip_bytes_while(digit_bytes());
                    c5.lemma_consume_byte(quote);
                    c3.lemma_slice_between(c5);
                }
            }
        }
    }
}

pub proof fn lemma_encoding_decl(c: Cursor)
    requires
        c.wf(),
    ensures
        part_ok(c, encoding_decl(c)),
        encoding_decl(c) is Ok && encoding_decl(c)->Ok_0.1 is Some ==> encoding_decl(
            c,
        )->Ok_0.1->0.lies_in(c.bytes, c.pos, encoding_decl(c)->Ok_0.0.pos),
{
    if c.starts_with(encode_utf8("encoding"@)) {
        reveal_strlit("encoding");
        lemma_starts_with_ascii(c, "encoding"@);
        let c0 = c.advance(8);
        c0.lemma_consume_eq();
        if let Ok(c1) = c0.consume_eq() {
            c1.lemma_consume_quote();
            if let Ok((c2, quote)) = c1.consume_quote() {
                c2.lemma_skip_bytes_wf(encoding_name_bytes());
                let c3 = c2.skip_bytes_while(encoding_name_bytes());
                c3.lemma_consume_byte(quote);
                c2.lemma_slice_between(c3);
            }
        }
    }
}

pub proof fn lemma_standalone_decl(c: Cursor)
    requires
        c.wf(),
    ensures
        part_ok(c, standalone_decl(c)),
{
    if c.starts_with(encode_utf8("standalone"@)) {
        reveal_strlit("standalone");
        lemma_starts_with_ascii(c, "standalone"@);
        let c0 = c.advance(10);
        c0.lemma_consume_eq();
        if let Ok(c1) = c0.consume_eq() {
            c1.lemma_consume_quote();
            if let Ok((c2, quote)) = c1.consume_quote() {
                c2.lemma_consume_name();
                if let Ok((c3, value)) = c2.consume_name() {
                    c3.lemma_consume_byte(quote);
                }
            }
        }
    }
}

pub proof fn lemma_declaration(c: Cursor)
    requires
        c.wf(),
        c.starts_with(encode_utf8("<?xml "@)),
    ensures
        token_ok(c, declaration(c)),
        declaration(c) is Ok ==> declaration(c)->Ok_0.1 is Declaration,
        declaration(c) is Ok ==> declaration(c)->Ok_0.0.pos >= c.pos + 6,
        declaration(c) is Ok ==> declaration(c)->Ok_0.1.span().start == c.pos,
{
    reveal(declaration);
    reveal_strlit("<?xml ");
    lemma_starts_with_ascii(c, "<?xml "@);
    encode_utf8_valid_utf8("?>"@);
    let c0 = c.advance(6);
    lemma_version_info(c0);
    if let Ok((c1, version)) = version_info(c0) {
        lemma_declaration_space(c1);
        if let Ok(c2) = declaration_space(c1) {
            lemma_encoding_decl(c2);
            if let Ok((c3, encoding)) = encoding_decl(c2) {
                lemma_declaration_space(c3);
                let spaced = if encoding is Some {
                    declaration_space(c3)
                } else {
                    Ok(c3)
                };
                if let Ok(c4) = spaced {
                    lemma_standalone_decl(c4);
                    if let Ok((c5, standalone)) = standalone_decl(c4) {
                        c5.lemma_skip_spaces();
                        c5.skip_spaces().lemma_skip_string(encode_utf8("?>"@));
                        if let Ok(c6) = c5.skip_spaces().skip_string(encode_utf8("?>"@)) {
                            c.lemma_slice_between(c6);
                            assert(c5.skip_spaces().starts_with(encode_utf8("?>"@)));
                        }
                    }
                }
            }
        }
    }
}

pub proof fn lemma_comment(c: Cursor)
    requires
        c.wf(),
        c.starts_with(encode_utf8("<!--"@)),
    ensures
        token_ok(c, comment(c)),
        comment(c) is Ok ==> comment(c)->Ok_0.1 is Comment,
        comment(c) is Ok ==> comment(c)->Ok_0.0.pos >= c.pos + 4,
        comment(c) is Ok ==> comment(c)->Ok_0.1.span().start == c.pos,
{
    reveal(comment);
    reveal_strlit("<!--");
    lemma_starts_with_ascii(c, "<!--"@);
    encode_utf8_valid_utf8("-->"@);
    let c0 = c.advance(4);
    c0.lemma_consume_chars(chars_up_to('-', "-->"@));
    if let Ok((c1, text)) = c0.consume_chars(chars_up_to('-', "-->"@)) {
        c1.lemma_skip_string(encode_utf8("-->"@));
        c0.lemma_slice_between(c1);
        if let Ok(c2) = c1.skip_string(encode_utf8("-->"@)) {
            c.lemma_slice_between(c2);
            reveal_strlit("-->");
            lemma_ascii_text("-->"@);
            assert(c1.starts_with(encode_utf8("-->"@)));
        }
    }
}

pub proof fn lemma_processing_instruction(c: Cursor)
    requires
        c.wf(),
        c.starts_with(encode_utf8("<?"@)),
    ensures
        token_ok(c, processing_instruction(c)),
        processing_instruction(c) is Ok ==> processing_instruction(c)->Ok_0.1 is ProcessingInstruction,
        processing_instruction(c) is Ok ==> processing_instruction(c)->Ok_0.0.pos >= c.pos + 2,
        processing_instruction(c) is Ok ==> processing_instruction(c)->Ok_0.1.span().start
            == c.pos,
{
    reveal(processing_instruction);
    reveal_strlit("<?");
    lemma_starts_with_ascii(c, "<?"@);
    encode_utf8_valid_utf8("?>"@);
    let c0 = c.advance(2);
    c0.lemma_consume_name();
    if let Ok((c1, target)) = c0.consume_name() {
        c1.lemma_skip_spaces();
        let c1s = c1.skip_spaces();
        c1s.lemma_consume_chars(chars_up_to('?', "?>"@));
        if let Ok((c2, content)) = c1s.consume_chars(chars_up_to('?', "?>"@)) {
            c2.lemma_skip_string(encode_utf8("?>"@));
            c0.lemma_slice_between(c1);
            c1s.lemma_slice_between(c2);
            if let Ok(c3) = c2.skip_string(encode_utf8("?>"@)) {
                c.lemma_slice_between(c3);
                reveal_strlit("?>");
                lemma_ascii_text("?>"@);
                assert(c2.starts_with(encode_utf8("?>"@)));
            }
        }
    }
}

pub proof fn lemma_external_id(c: Cursor)
    requires
        c.wf(),
    ensures
        part_ok(c, external_id(c)),
        external_id(c) is Ok && external_id(c)->Ok_0.1 is Some ==> external_id(c)->Ok_0.0.pos
            > c.pos,
        external_id(c) is Ok && external_id(c)->Ok_0.1 is Some ==> external_id(
            c,
        )->Ok_0.1->0.lies_in(c.bytes, c.pos, external_id(c)->Ok_0.0.pos),
{
    let system = c.starts_with(encode_utf8("SYSTEM"@));
    if system || c.starts_with(encode_utf8("PUBLIC"@)) {
        reveal_strlit("SYSTEM");
        reveal_strlit("PUBLIC");
        if system {
            lemma_starts_with_ascii(c, "SYSTEM"@);
        } else {
            lemma_starts_with_ascii(c, "PUBLIC"@);
        }
        let c0 = c.advance(6);
        c0.lemma_consume_spaces();
        if let Ok(c1) = c0.consume_spaces() {
            lemma_quoted_literal(c1);
            if let Ok((c2, first)) = quoted_literal(c1) {
                if !system {
                    c2.lemma_consume_spaces();
                    if let Ok(c3) = c2.consume_spaces() {
                        lemma_quoted_literal(c3);
                    }
                }
            }
        }
    }
}

pub proof fn lemma_doctype(c: Cursor)
    requires
        c.wf(),
        c.starts_with(encode_utf8("<!DOCTYPE"@)),
    ensures
        token_ok(c, doctype(c)),
        doctype(c) is Ok ==> (doctype(c)->Ok_0.1 is DtdStart || doctype(c)->Ok_0.1 is EmptyDtd),
        doctype(c) is Ok ==> doctype(c)->Ok_0.0.pos >= c.pos + 9,
        doctype(c) is Ok ==> doctype(c)->Ok_0.1.span().start == c.pos,
{
    reveal(doctype);
    reveal_strlit("<!DOCTYPE");
    lemma_starts_with_ascii(c, "<!DOCTYPE"@);
    let c0 = c.advance(9);
    c0.lemma_consume_spaces();
    if let Ok(c1) = c0.consume_spaces() {
        c1.lemma_consume_name();
        if let Ok((c2, name)) = c1.consume_name() {
            c2.lemma_skip_spaces();
            lemma_external_id(c2.skip_spaces());
            if let Ok((c3, id)) = external_id(c2.skip_spaces()) {
                c3.lemma_skip_spaces();
                let c4 = c3.skip_spaces();
                if !c4.at_end() && (c4.curr() == 0x5B || c4.curr() == 0x3E) {
                    crate::encoding::lemma_ascii_boundary(c4.bytes, c4.pos);
                    c1.lemma_slice_between(c2);
                    c.lemma_slice_between(c4.advance(1));
                }
            }
        }
    }
}

pub proof fn lemma_entity_def(c: Cursor, general: bool)
    requires
        c.wf(),
    ensures
        part_ok(c, entity_def(c, general)),
        entity_def(c, general) is Ok ==> entity_def(c, general)->Ok_0.1.lies_in(
            c.bytes,
            c.pos,
            entity_def(c, general)->Ok_0.0.pos,
        ),
{
    if c.at_end() {
    } else if c.curr() == 0x22 || c.curr() == 0x27 {
        lemma_quoted_literal(c);
    } else if c.curr() == 0x53 || c.curr() == 0x50 {
        lemma_external_id(c);
        if let Ok((c1, Some(id))) = external_id(c) {
            c1.lemma_skip_spaces();
            let c2 = c1.skip_spaces();
            if general && c1.starts_with_space() && c2.starts_with(encode_utf8("NDATA"@)) {
                reveal_strlit("NDATA");
                lemma_starts_with_ascii(c2, "NDATA"@);
                c2.advance(5).lemma_consume_spaces();
                if let Ok(c3) = c2.advance(5).consume_spaces() {
                    c3.lemma_skip_name();
                }
            }
        }
    }
}

pub proof fn lemma_entity_decl(c: Cursor)
    requires
        c.wf(),
        c.starts_with(encode_utf8("<!ENTITY"@)),
    ensures
        token_ok(c, entity_decl(c)),
        entity_decl(c) is Ok ==> entity_decl(c)->Ok_0.1 is EntityDeclaration,
        entity_decl(c) is Ok ==> entity_decl(c)->Ok_0.0.pos >= c.pos + 8,
        entity_decl(c) is Ok ==> entity_decl(c)->Ok_0.1.span().start == c.pos,
{
    reveal(entity_decl);
    reveal_strlit("<!ENTITY");
    lemma_starts_with_ascii(c, "<!ENTITY"@);
    let c0 = c.advance(8);
    c0.lemma_consume_spaces();
    if let Ok(c1) = c0.consume_spaces() {
        c1.lemma_consume_byte(0x25);
        let (c2, percent) = c1.try_consume_byte(0x25);
        if percent {
            c2.lemma_skip_spaces();
        }
        let c3 = if percent {
            c2.skip_spaces()
        } else {
            c2
        };
        assert(c3.succeeds(c0));
        lemma_entity_named(c, c3, !percent);
    }
}

/// The part of an entity declaration from the name on.
proof fn lemma_entity_named(c: Cursor, c3: Cursor, general: bool)
    requires
        c.wf(),
        c3.succeeds(c),
        c3.pos >= c.pos + 8,
    ensures
        match entity_named(c.pos, c3, general) {
            Ok((after, t)) => {
                &&& after.succeeds(c3)
                &&& t matches Lexeme::EntityDeclaration { name, definition, span }
                &&& span == Slice::of(c.bytes, c.pos, after.pos)
                &&& span.lies_in(c.bytes, 0, c.bytes.len() as int)
                &&& name.lies_in(c.bytes, c.pos, after.pos)
                &&& definition.lies_in(c.bytes, c.pos, after.pos)
                &&& name.bytes.len() > 0
                &&& c.bytes[after.pos - 1] == 0x3E
            },
            Err(_) => true,
        },
{
    c3.lemma_consume_name();
    if let Ok((c4, name)) = c3.consume_name() {
        c4.lemma_consume_spaces();
        if let Ok(c5) = c4.consume_spaces() {
            lemma_entity_def(c5, general);
            if let Ok((c6, definition)) = entity_def(c5, general) {
                c6.lemma_skip_spaces();
                c6.skip_spaces().lemma_consume_byte(0x3E);
                c3.lemma_slice_between(c4);
                if let Ok(c7) = c6.skip_spaces().consume_byte(0x3E) {
                    c.lemma_slice_between(c7);
                }
            }
        }
    }
}

pub proof fn lemma_skipped_decl(c: Cursor)
    requires
        c.wf(),
    ensures
        match skipped_decl(c) {
            Ok(after) => after.succeeds(c) && after.pos > c.pos,
            Err(_) => true,
        },
{
    c.lemma_skip_bytes_wf(bytes_other_than(0x3E));
    c.skip_bytes_while(bytes_other_than(0x3E)).lemma_consume_byte(0x3E);
}

pub proof fn lemma_cdata(c: Cursor)
    requires
        c.wf(),
        c.starts_with(encode_utf8("<![CDATA["@)),
    ensures
        token_ok(c, cdata(c)),
        cdata(c) is Ok ==> cdata(c)->Ok_0.1 is Cdata,
        cdata(c) is Ok ==> cdata(c)->Ok_0.0.pos >= c.pos + 9,
        cdata(c) is Ok ==> cdata(c)->Ok_0.1.span().start == c.pos,
{
    reveal(cdata);
    reveal_strlit("<![CDATA[");
    lemma_starts_with_ascii(c, "<![CDATA["@);
    encode_utf8_valid_utf8("]]>"@);
    let c0 = c.advance(9);
    c0.lemma_consume_chars(chars_up_to(']', "]]>"@));
    if let Ok((c1, text)) = c0.consume_chars(chars_up_to(']', "]]>"@)) {
        c1.lemma_skip_string(encode_utf8("]]>"@));
        c0.lemma_slice_between(c1);
        if let Ok(c2) = c1.skip_string(encode_utf8("]]>"@)) {
            c.lemma_slice_between(c2);
            reveal_strlit("]]>");
            lemma_ascii_text("]]>"@);
            assert(c1.starts_with(encode_utf8("]]>"@)));
        }
    }
}

pub proof fn lemma_element_start(c: Cursor)
    requires
        c.wf(),
        c.starts_with(encode_utf8("<"@)),
    ensures
        token_ok(c, element_start(c)),
        element_start(c) is Ok ==> element_start(c)->Ok_0.1 is ElementStart,
        element_start(c) is Ok ==> element_start(c)->Ok_0.0.pos >= c.pos + 2,
        element_start(c) is Ok ==> element_start(c)->Ok_0.1.span().start == c.pos,
{
    reveal(element_start);
    reveal_strlit("<");
    lemma_starts_with_ascii(c, "<"@);
    c.advance(1).lemma_consume_qname();
    if let Ok((c1, prefix, local)) = c.advance(1).consume_qname() {
        c.lemma_slice_between(c1);
        lemma_qualified(c.advance(1));
    }
}

pub proof fn lemma_close_element(c: Cursor)
    requires
        c.wf(),
        c.starts_with(encode_utf8("</"@)),
    ensures
        token_ok(c, close_element(c)),
        close_element(c) is Ok ==> (close_element(c)->Ok_0.1 matches Lexeme::ElementEnd { end: crate::token::Ending::Close(_, _), .. }),
        close_element(c) is Ok ==> close_element(c)->Ok_0.0.pos >= c.pos + 2,
        close_element(c) is Ok ==> close_element(c)->Ok_0.1.span().start == c.pos,
{
    reveal(close_element);
    reveal_strlit("</");
    lemma_starts_with_ascii(c, "</"@);
    let c0 = c.advance(2);
    c0.lemma_consume_qname();
    if let Ok((c1, prefix, local)) = c0.consume_qname() {
        c1.lemma_skip_spaces();
        c1.skip_spaces().lemma_consume_byte(0x3E);
        if let Ok(c2) = c1.skip_spaces().consume_byte(0x3E) {
            c.lemma_slice_between(c2);
            lemma_qualified(c0);
            c1.lemma_skip_bytes_while(crate::cursor::space_bytes());
        }
    }
}

pub proof fn lemma_attribute(c: Cursor)
    requires
        c.wf(),
    ensures
        token_ok(c, attribute(c)),
        attribute(c) is Ok ==> (attribute(c)->Ok_0.1 is Attribute || (attribute(c)->Ok_0.1 matches Lexeme::ElementEnd { end, .. } && !(end is Close))),
        attribute(c) is Ok ==> attribute(c)->Ok_0.1.span().start == c.skip_spaces().pos,
{
    reveal(attribute);
    c.lemma_skip_spaces();
    let c1 = c.skip_spaces();
    if !c1.at_end() && c1.curr() == 0x2F {
        crate::encoding::lemma_ascii_boundary(c1.bytes, c1.pos);
        c1.advance(1).lemma_consume_byte(0x3E);
        if let Ok(c2) = c1.advance(1).consume_byte(0x3E) {
            c1.lemma_slice_between(c2);
            assert(c2.slice_back(c1.pos).bytes =~= seq![0x2Fu8, 0x3Eu8]);
        }
    } else if !c1.at_end() && c1.curr() == 0x3E {
        crate::encoding::lemma_ascii_boundary(c1.bytes, c1.pos);
        c1.lemma_slice_between(c1.advance(1));
        assert(c1.advance(1).slice_back(c1.pos).bytes =~= seq![0x3Eu8]);
    } else if c.starts_with_space() {
        c1.lemma_consume_qname();
        if let Ok((c2, prefix, local)) = c1.consume_qname() {
            c2.lemma_consume_eq();
            if let Ok(c3) = c2.consume_eq() {
                c3.lemma_consume_quote();
                if let Ok((c4, quote)) = c3.consume_quote() {
                    c4.lemma_consume_chars(attribute_value_chars(quote));
                    if let Ok((c5, value)) = c4.consume_chars(attribute_value_chars(quote)) {
                        c5.lemma_consume_byte(quote);
                        c4.lemma_slice_between(c5);
                        if let Ok(c6) = c5.consume_byte(quote) {
                            c1.lemma_slice_between(c6);
                            lemma_qualified(c1);
                            let pred = crate::cursor::xml_chars(attribute_value_chars(quote));
                            assert forall|x: Cursor, ch: char| #[trigger]
                                pred(x, ch) implies ch != (0x3Cu8 as char) && ch != (
                            quote as char) by {
                                assert(attribute_value_chars(quote)(x, ch));
                            }
                            c4.lemma_skipped_bytes_differ(pred, quote);
                            c4.lemma_skipped_bytes_differ(pred, 0x3C);
                        }
                    }
                }
            }
        }
    }
}

pub proof fn lemma_text(c: Cursor)
    requires
        c.wf(),
        !c.at_end(),
        c.curr() != 0x3C,
    ensures
        token_ok(c, text(c)),
        text(c) is Ok ==> text(c)->Ok_0.1 is Text,
        text(c) is Ok ==> text(c)->Ok_0.1.span().start == c.pos,
{
    reveal(text);
    c.lemma_consume_chars(text_chars());
    c.lemma_char_step();
    c.lemma_skip_chars_while(crate::cursor::xml_chars(text_chars()));
    if let Ok((c1, t)) = c.consume_chars(text_chars()) {
        c.lemma_slice_between(c1);
        let pred = crate::cursor::xml_chars(text_chars());
        assert forall|x: Cursor, ch: char| #[trigger] pred(x, ch) implies ch != (0x3Cu8 as char) by {
            assert(text_chars()(x, ch));
        }
        c.lemma_skipped_bytes_differ(pred, 0x3C);
    }
}

} // verus!
