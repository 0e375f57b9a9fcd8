//! A token is read again from its own span: the tokenizer in the same
//! state, over the same text, that starts where the token starts and ends
//! where it ends, yields the same token.

use vstd::prelude::*;
use vstd::utf8::*;
use crate::cursor::Cursor;
use crate::encoding::lemma_ascii_text;
use crate::error::Fault;
use crate::grammar::{attribute, comment, declaration, lemma_markup, lemma_starts_with_ascii, text};
use crate::laws::{lemma_dispatch, lemma_next, lemma_parse_next};
use crate::locality::{
    lemma_until_cdata,
    lemma_until_close_element,
    lemma_until_comment,
    lemma_until_declaration,
    lemma_until_doctype,
    lemma_until_element_start,
    lemma_until_entity_decl,
    lemma_until_processing_instruction,
    lemma_until_tag_end,
    lemma_until_text,
};
use crate::machine::{Machine, Move, State};
use crate::soundness::{
    lemma_attribute,
    lemma_cdata,
    lemma_close_element,
    lemma_comment,
    lemma_declaration,
    lemma_doctype,
    lemma_element_start,
    lemma_entity_decl,
    lemma_processing_instruction,
    lemma_text,
};
use crate::strspan::Slice;
use crate::token::Lexeme;

verus! {

/// The bytes of the markup that the states look for.
proof fn lemma_markup_bytes()
    ensures
        encode_utf8("<?xml "@) =~= seq![0x3Cu8, 0x3Fu8, 0x78u8, 0x6Du8, 0x6Cu8, 0x20u8],
        encode_utf8("<!DOCTYPE"@) =~= seq![
            0x3Cu8,
            0x21u8,
            0x44u8,
            0x4Fu8,
            0x43u8,
            0x54u8,
            0x59u8,
            0x50u8,
            0x45u8,
        ],
        encode_utf8("<!ENTITY"@) =~= seq![
            0x3Cu8,
            0x21u8,
            0x45u8,
            0x4Eu8,
            0x54u8,
            0x49u8,
            0x54u8,
            0x59u8,
        ],
        encode_utf8("<![CDATA["@) =~= seq![
            0x3Cu8,
            0x21u8,
            0x5Bu8,
            0x43u8,
            0x44u8,
            0x41u8,
            0x54u8,
            0x41u8,
            0x5Bu8,
        ],
        encode_utf8("<!--"@) =~= seq![0x3Cu8, 0x21u8, 0x2Du8, 0x2Du8],
        encode_utf8("<?"@) =~= seq![0x3Cu8, 0x3Fu8],
        encode_utf8("<!"@) =~= seq![0x3Cu8, 0x21u8],
        encode_utf8("</"@) =~= seq![0x3Cu8, 0x2Fu8],
        encode_utf8("<"@) =~= seq![0x3Cu8],
        encode_utf8("]"@) =~= seq![0x5Du8],
{
    reveal_strlit("<?xml ");
    reveal_strlit("<!DOCTYPE");
    reveal_strlit("<!ENTITY");
    reveal_strlit("<![CDATA[");
    reveal_strlit("<!--");
    reveal_strlit("<?");
    reveal_strlit("<!");
    reveal_strlit("</");
    reveal_strlit("<");
    reveal_strlit("]");
    lemma_ascii_text("<?xml "@);
    lemma_ascii_text("<!DOCTYPE"@);
    lemma_ascii_text("<!ENTITY"@);
    lemma_ascii_text("<![CDATA["@);
    lemma_ascii_text("<!--"@);
    lemma_ascii_text("<?"@);
    lemma_ascii_text("<!"@);
    lemma_ascii_text("</"@);
    lemma_ascii_text("<"@);
    lemma_ascii_text("]"@);
}

/// The tokenizer `m` over the part `part` of its text: in the same state,
/// at the start of the part, with the end of the part as the end of its stream.
pub open spec fn reading(m: Machine, part: Slice) -> Machine {
    Machine { stream: Cursor { pos: part.start, end: part.end(), ..m.stream }, ..m }
}

/// The state is done with the token `t`.
pub open spec fn yields(step: Move, t: Lexeme) -> bool {
    match step {
        Move::Done(_, Some(Ok(x))) => x == t,
        _ => false,
    }
}

/// Where the token starts that a state is done with: at the position, or,
/// behind the name of an element or an attribute, behind the white space.
pub open spec fn token_start(m: Machine) -> int {
    if m.state == State::Attributes {
        m.stream.skip_spaces().pos
    } else {
        m.stream.pos
    }
}

/// What the lemmas on the states show: the token starts where it is
/// looked for, and the state is done with it again over its span.
pub open spec fn read_again(m: Machine, t: Lexeme) -> bool {
    &&& t.span().start == token_start(m)
    &&& reading(m, t.span()).wf()
    &&& !reading(m, t.span()).stream.at_end()
    &&& yields(reading(m, t.span()).dispatch(), t)
}

proof fn lemma_again_instruction(m: Machine, t: Lexeme)
    requires
        m.wf(),
        m.state != State::End,
        m.state != State::Attributes,
        m.stream.starts_with(encode_utf8("<?"@)),
        yields(m.instruction(), t),
    ensures
        t.span().start == m.stream.pos,
        reading(m, t.span()).stream == m.stream.until(t.span().end()),
        reading(m, t.span()).stream.wf(),
        m.stream.pos + 2 <= t.span().end() <= m.stream.end,
        yields(reading(m, t.span()).instruction(), t),
{
    lemma_markup_bytes();
    let c = m.stream;
    lemma_processing_instruction(c);
    let e = t.span().end();
    lemma_until_processing_instruction(c, e);
    c.lemma_until_starts_with(encode_utf8("<?xml "@), e);
    c.lemma_until_starts_with(encode_utf8("<?"@), e);
}

proof fn lemma_again_comment(c: Cursor, part: Slice)
    requires
        c.wf(),
        c.starts_with(encode_utf8("<!--"@)),
        comment(c) is Ok,
        part == comment(c)->Ok_0.1.span(),
    ensures
        part.start == c.pos,
        c.until(part.end()).wf(),
        c.pos + 4 <= part.end() <= c.end,
        c.until(part.end()).starts_with(encode_utf8("<!--"@)),
        comment(c.until(part.end())) is Ok,
        comment(c.until(part.end()))->Ok_0.1 == comment(c)->Ok_0.1,
{
    lemma_markup_bytes();
    lemma_comment(c);
    lemma_until_comment(c, part.end());
    reveal_strlit("<!--");
    lemma_ascii_text("<!--"@);
    c.lemma_until_starts_with(encode_utf8("<!--"@), part.end());
}

proof fn lemma_again_in_declaration(m: Machine, t: Lexeme)
    requires
        m.wf(),
        !m.stream.at_end(),
        m.state == State::Declaration,
        yields(m.in_declaration(), t),
    ensures
        read_again(m, t),
{
    lemma_markup_bytes();
    let c = m.stream;
    lemma_declaration(c);
    let e = t.span().end();
    lemma_until_declaration(c, e);
    c.lemma_until_starts_with(encode_utf8("<?xml "@), e);
    assert(reading(m, t.span()).stream == c.until(e));
}

proof fn lemma_again_in_after_declaration(m: Machine, t: Lexeme)
    requires
        m.wf(),
        !m.stream.at_end(),
        m.state == State::AfterDeclaration,
        yields(m.in_after_declaration(), t),
    ensures
        read_again(m, t),
{
    lemma_markup_bytes();
    let c = m.stream;
    let e = t.span().end();
    if c.starts_with(encode_utf8("<!DOCTYPE"@)) {
        lemma_doctype(c);
        lemma_until_doctype(c, e);
        c.lemma_until_starts_with(encode_utf8("<!DOCTYPE"@), e);
        assert(reading(m, t.span()).stream == c.until(e));
    } else if c.starts_with(encode_utf8("<!--"@)) {
        lemma_again_comment(c, t.span());
        c.lemma_until_starts_with(encode_utf8("<!DOCTYPE"@), e);
        assert(reading(m, t.span()).stream == c.until(e));
    } else if c.starts_with(encode_utf8("<?"@)) {
        lemma_again_instruction(m, t);
        c.lemma_until_starts_with(encode_utf8("<!DOCTYPE"@), e);
        c.lemma_until_starts_with(encode_utf8("<!--"@), e);
    }
}

proof fn lemma_again_dtd_end(m: Machine, t: Lexeme)
    requires
        m.wf(),
        m.stream.starts_with(encode_utf8("]"@)),
        yields(m.dtd_end(), t),
    ensures
        t.span().start == m.stream.pos,
        reading(m, t.span()).stream == m.stream.until(t.span().end()),
        reading(m, t.span()).stream.wf(),
        m.stream.pos + 1 <= t.span().end() <= m.stream.end,
        yields(reading(m, t.span()).dtd_end(), t),
{
    lemma_markup_bytes();
    let c = m.stream;
    reveal_strlit("]");
    lemma_starts_with_ascii(c, "]"@);
    c.advance(1).lemma_skip_spaces();
    let c1 = c.advance(1).skip_spaces();
    crate::encoding::lemma_ascii_boundary(c1.bytes, c1.pos);
    let e = t.span().end();
    assert(c.until(e).advance(1) == c.advance(1).until(e));
    c.advance(1).lemma_until_skip_spaces(e);
    assert(c1.until(e).advance(1) == c1.advance(1).until(e));
}

proof fn lemma_again_in_dtd(m: Machine, t: Lexeme)
    requires
        m.wf(),
        !m.stream.at_end(),
        m.state == State::Dtd,
        yields(m.in_dtd(), t),
    ensures
        read_again(m, t),
{
    lemma_markup_bytes();
    let c = m.stream;
    let e = t.span().end();
    if c.starts_with(encode_utf8("<!ENTITY"@)) {
        lemma_entity_decl(c);
        lemma_until_entity_decl(c, e);
        c.lemma_until_starts_with(encode_utf8("<!ENTITY"@), e);
        assert(reading(m, t.span()).stream == c.until(e));
    } else if c.starts_with(encode_utf8("<!--"@)) {
        lemma_again_comment(c, t.span());
        c.lemma_until_starts_with(encode_utf8("<!ENTITY"@), e);
        assert(reading(m, t.span()).stream == c.until(e));
    } else if c.starts_with(encode_utf8("<?"@)) {
        lemma_again_instruction(m, t);
        c.lemma_until_starts_with(encode_utf8("<!ENTITY"@), e);
        c.lemma_until_starts_with(encode_utf8("<!--"@), e);
    } else if c.starts_with(encode_utf8("]"@)) {
        lemma_again_dtd_end(m, t);
        c.lemma_until_starts_with(encode_utf8("<!ENTITY"@), e);
        c.lemma_until_starts_with(encode_utf8("<!--"@), e);
        c.lemma_until_starts_with(encode_utf8("<?"@), e);
        c.lemma_until_starts_with(encode_utf8("]"@), e);
    }
}

proof fn lemma_again_in_after_dtd(m: Machine, t: Lexeme)
    requires
        m.wf(),
        !m.stream.at_end(),
        m.state == State::AfterDtd,
        yields(m.in_after_dtd(), t),
    ensures
        read_again(m, t),
{
    lemma_markup_bytes();
    let c = m.stream;
    let e = t.span().end();
    if c.starts_with(encode_utf8("<!--"@)) {
        lemma_again_comment(c, t.span());
        assert(reading(m, t.span()).stream == c.until(e));
    } else if c.starts_with(encode_utf8("<?"@)) {
        lemma_again_instruction(m, t);
        c.lemma_until_starts_with(encode_utf8("<!--"@), e);
    } else if c.starts_with(encode_utf8("<!"@)) {
    } else if c.starts_with(encode_utf8("<"@)) {
        lemma_element_start(c);
        lemma_until_element_start(c, e);
        c.lemma_until_starts_with(encode_utf8("<!--"@), e);
        c.lemma_until_starts_with(encode_utf8("<?"@), e);
        c.lemma_until_starts_with(encode_utf8("<!"@), e);
        c.lemma_until_starts_with(encode_utf8("<"@), e);
        reveal_strlit("<");
        lemma_ascii_text("<"@);
        assert(reading(m, t.span()).stream == c.until(e));
    }
}

proof fn lemma_again_in_elements(m: Machine, t: Lexeme)
    requires
        m.wf(),
        !m.stream.at_end(),
        m.state == State::Elements,
        yields(m.in_elements(), t),
    ensures
        read_again(m, t),
{
    lemma_markup_bytes();
    let c = m.stream;
    let e = t.span().end();
    if c.curr() != 0x3C {
        lemma_text(c);
        lemma_until_text(c, e);
        assert(reading(m, t.span()).stream == c.until(e));
    } else {
        lemma_markup(c);
        let b = c.next_byte()->Ok_0;
        if b == 0x21 {
            if c.starts_with(encode_utf8("<!--"@)) {
                lemma_again_comment(c, t.span());
            } else {
                lemma_cdata(c);
                lemma_until_cdata(c, e);
                c.lemma_until_starts_with(encode_utf8("<!--"@), e);
                c.lemma_until_starts_with(encode_utf8("<![CDATA["@), e);
            }
            assert(reading(m, t.span()).stream == c.until(e));
        } else if b == 0x3F {
            lemma_again_instruction(m, t);
        } else if b == 0x2F {
            lemma_close_element(c);
            lemma_until_close_element(c, e);
            assert(reading(m, t.span()).stream == c.until(e));
        } else {
            lemma_element_start(c);
            lemma_until_element_start(c, e);
            assert(reading(m, t.span()).stream == c.until(e));
        }
    }
}

proof fn lemma_again_in_attributes(m: Machine, t: Lexeme)
    requires
        m.wf(),
        !m.stream.at_end(),
        m.state == State::Attributes,
        yields(m.in_attributes(), t),
        !(t is Attribute),
    ensures
        read_again(m, t),
{
    let c = m.stream;
    let e = t.span().end();
    lemma_attribute(c);
    c.lemma_skip_spaces();
    lemma_until_tag_end(c, e);
    assert(reading(m, t.span()).stream == c.skip_spaces().until(e));
}

proof fn lemma_again_in_after_elements(m: Machine, t: Lexeme)
    requires
        m.wf(),
        !m.stream.at_end(),
        m.state == State::AfterElements,
        yields(m.in_after_elements(), t),
    ensures
        read_again(m, t),
{
    lemma_markup_bytes();
    let c = m.stream;
    let e = t.span().end();
    if c.starts_with(encode_utf8("<!--"@)) {
        lemma_again_comment(c, t.span());
        assert(reading(m, t.span()).stream == c.until(e));
    } else if c.starts_with(encode_utf8("<?"@)) {
        lemma_again_instruction(m, t);
        c.lemma_until_starts_with(encode_utf8("<!--"@), e);
    }
}

/// A state that is done with a token, other than an attribute, is done
/// with the same token over the span of that token.
pub proof fn lemma_dispatch_again(m: Machine, t: Lexeme)
    requires
        m.wf(),
        !m.stream.at_end(),
        yields(m.dispatch(), t),
        !(t is Attribute),
    ensures
        read_again(m, t),
{
    match m.state {
        State::Declaration => lemma_again_in_declaration(m, t),
        State::AfterDeclaration => lemma_again_in_after_declaration(m, t),
        State::Dtd => lemma_again_in_dtd(m, t),
        State::AfterDtd => lemma_again_in_after_dtd(m, t),
        State::Elements => lemma_again_in_elements(m, t),
        State::Attributes => lemma_again_in_attributes(m, t),
        State::AfterElements => lemma_again_in_after_elements(m, t),
        State::End => {},
    }
}

/// An XML declaration that stands behind the start of the text is no token.
proof fn lemma_declaration_out_of_place(m: Machine)
    requires
        m.wf(),
        m.state == State::AfterDeclaration,
        m.stream.starts_with(encode_utf8("<?xml "@)),
        !m.stream.at_end(),
    ensures
        m.parse_next().1 is Some,
        m.parse_next().1->0 is Err,
{
    lemma_markup_bytes();
    let c = m.stream;
    let x = c.bytes.subrange(c.pos, c.pos + 6);
    assert(x[0] == 0x3C && x[1] == 0x3F);
    if c.starts_with(encode_utf8("<!DOCTYPE"@)) {
        assert(c.bytes.subrange(c.pos, c.pos + 9)[1] == 0x21);
    }
    if c.starts_with(encode_utf8("<!--"@)) {
        assert(c.bytes.subrange(c.pos, c.pos + 4)[1] == 0x21);
    }
    assert(c.bytes.subrange(c.pos, c.pos + 2) =~= encode_utf8("<?"@));
}

/// The search for the next construct finds a token, other than an
/// attribute, again over the span of that token.
pub proof fn lemma_parse_next_again(m: Machine, t: Lexeme)
    requires
        m.wf(),
        m.state != State::End,
        m.parse_next().1 == Some::<Result<Lexeme, Fault>>(Ok(t)),
        !(t is Attribute),
    ensures
        reading(m, t.span()).wf(),
        reading(m, t.span()).parse_next().1 == Some::<Result<Lexeme, Fault>>(Ok(t)),
    decreases m.stream.remaining(), m.state.rank(),
{
    lemma_dispatch(m);
    let r = reading(m, t.span());
    match m.dispatch() {
        Move::Done(_, _) => {
            lemma_dispatch_again(m, t);
        },
        Move::Again(after) => {
            m.lemma_again();
            lemma_parse_next_again(after, t);
            let ra = reading(after, t.span());
            lemma_parse_next(after);
            if after.state != m.state {
                // The state was left without reading: so it is over the span.
                let c = m.stream;
                let e = t.span().end();
                if m.state == State::Declaration {
                    assert(ra.stream == r.stream);
                    if r.stream.starts_with(encode_utf8("<?xml "@)) {
                        lemma_declaration_out_of_place(ra);
                    }
                    assert(r.dispatch() == Move::Again(ra));
                } else {
                    assert(m.state == State::AfterDeclaration);
                    assert(after.dispatch() is Done);
                    lemma_dispatch(after);
                    lemma_dispatch_again(after, t);
                    assert(r.stream == c.until(e));
                    c.lemma_until_starts_with(encode_utf8("<!DOCTYPE"@), e);
                    c.lemma_until_starts_with(encode_utf8("<!--"@), e);
                    c.lemma_until_starts_with(encode_utf8("<?"@), e);
                    assert(r.dispatch() == Move::Again(ra));
                }
                assert(r.state.rank() > ra.state.rank());
            } else {
                assert(ra == r);
            }
        },
    }
}

/// Span fidelity: a token, other than an attribute, is read again from
/// its span. The tokenizer in the state and over the text of the pull that
/// yielded the token, with a stream that starts where the token starts
/// and ends where it ends, yields the same token.
///
/// An attribute is not read from its span alone: it is an attribute only
/// behind white space, which its span does not hold.
pub proof fn law_span_fidelity(m: Machine, t: Lexeme)
    requires
        m.wf(),
        m.next().1 == Some::<Result<Lexeme, Fault>>(Ok(t)),
        !(t is Attribute),
    ensures
        reading(m, t.span()).wf(),
        reading(m, t.span()).next().1 == Some::<Result<Lexeme, Fault>>(Ok(t)),
{
    lemma_next(m);
    lemma_parse_next_again(m, t);
}

} // verus!
