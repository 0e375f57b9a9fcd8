//! What holds of every pull of the tokenizer, whatever the text.

use vstd::prelude::*;
use vstd::utf8::*;
use crate::grammar::{lemma_markup, lemma_starts_with_ascii, occurs};
use crate::machine::{Machine, Move, Pull, State};
use crate::soundness::{
    clean,
    lemma_attribute,
    lemma_cdata,
    lemma_close_element,
    lemma_comment,
    lemma_declaration,
    lemma_doctype,
    lemma_element_start,
    lemma_entity_decl,
    lemma_processing_instruction,
    lemma_skipped_decl,
    lemma_text,
    placed,
    shaped,
};
use crate::token::{Ending, Lexeme};

verus! {

/// The number of open elements behind the token `t`: one more behind `>`,
/// one less behind a closing tag, but never less than none.
pub open spec fn depth_after(depth: nat, t: Lexeme) -> nat {
    match t {
        Lexeme::ElementEnd { end: Ending::Open, .. } => depth + 1,
        Lexeme::ElementEnd { end: Ending::Close(_, _), .. } => if depth > 0 {
            (depth - 1) as nat
        } else {
            0
        },
        _ => depth,
    }
}

/// What holds of a pull that led from `m` to `after`: the text stays, the
/// stream does not go back, a token covers what was read and is counted in
/// the depth, and `None` comes at the end of the stream only.
pub open spec fn pull_ok(m: Machine, after: Machine, pull: Pull) -> bool {
    &&& after.fragment == m.fragment
    &&& after.stream.follows(m.stream)
    &&& after.halt().wf()
    &&& match pull {
        Some(Ok(t)) => {
            &&& after.wf()
            &&& after.state != State::End
            &&& placed(t, m.stream, after.stream)
            &&& t.lies_in(m.stream.bytes)
            &&& shaped(t, m.stream.bytes)
            &&& clean(t)
            &&& after.depth == depth_after(m.depth, t)
        },
        Some(Err(_)) => true,
        None => after.wf() && after.stream.at_end() && after.depth == m.depth,
    }
}

/// What holds of a state that looks again from `after`.
pub open spec fn again_ok(m: Machine, after: Machine) -> bool {
    &&& after.wf()
    &&& after.state != State::End
    &&& after.fragment == m.fragment
    &&& after.depth == m.depth
    &&& after.stream.follows(m.stream)
}

/// What holds of what a state makes of the stream.
pub open spec fn move_ok(m: Machine, step: Move) -> bool {
    match step {
        Move::Done(after, pull) => pull is Some && pull_ok(m, after, pull),
        Move::Again(after) => again_ok(m, after),
    }
}

proof fn lemma_instruction(m: Machine)
    requires
        m.wf(),
        m.state != State::End,
        m.stream.starts_with(encode_utf8("<?"@)),
    ensures
        move_ok(m, m.instruction()),
{
    lemma_processing_instruction(m.stream);
}

proof fn lemma_in_declaration(m: Machine)
    requires
        m.wf(),
        !m.stream.at_end(),
    ensures
        move_ok(m, m.in_declaration()),
{
    if m.stream.starts_with(encode_utf8("<?xml "@)) {
        lemma_declaration(m.stream);
    }
}

proof fn lemma_in_after_declaration(m: Machine)
    requires
        m.wf(),
        !m.stream.at_end(),
        m.state != State::End,
    ensures
        move_ok(m, m.in_after_declaration()),
{
    let c = m.stream;
    if c.starts_with(encode_utf8("<!DOCTYPE"@)) {
        lemma_doctype(c);
    } else if c.starts_with(encode_utf8("<!--"@)) {
        lemma_comment(c);
    } else if c.starts_with(encode_utf8("<?"@)) {
        lemma_instruction(m);
    } else if c.starts_with_space() {
        c.lemma_skip_spaces();
    }
}

proof fn lemma_dtd_end(m: Machine)
    requires
        m.wf(),
        m.stream.starts_with(encode_utf8("]"@)),
    ensures
        move_ok(m, m.dtd_end()),
{
    let c = m.stream;
    reveal_strlit("]");
    lemma_starts_with_ascii(c, "]"@);
    c.advance(1).lemma_skip_spaces();
    let c1 = c.advance(1).skip_spaces();
    if !c1.at_end() && c1.curr() == 0x3E {
        crate::encoding::lemma_ascii_boundary(c1.bytes, c1.pos);
        c.advance(1).lemma_skip_bytes_while(crate::cursor::space_bytes());
        c.lemma_slice_between(c1.advance(1));
    }
}

proof fn lemma_in_dtd(m: Machine)
    requires
        m.wf(),
        !m.stream.at_end(),
        m.state != State::End,
    ensures
        move_ok(m, m.in_dtd()),
{
    let c = m.stream;
    if c.starts_with(encode_utf8("<!ENTITY"@)) {
        lemma_entity_decl(c);
    } else if c.starts_with(encode_utf8("<!--"@)) {
        lemma_comment(c);
    } else if c.starts_with(encode_utf8("<?"@)) {
        lemma_instruction(m);
    } else if c.starts_with(encode_utf8("]"@)) {
        lemma_dtd_end(m);
    } else if c.starts_with_space() {
        c.lemma_skip_spaces();
    } else {
        lemma_skipped_decl(c);
    }
}

proof fn lemma_in_after_dtd(m: Machine)
    requires
        m.wf(),
        !m.stream.at_end(),
        m.state != State::End,
    ensures
        move_ok(m, m.in_after_dtd()),
{
    let c = m.stream;
    if c.starts_with(encode_utf8("<!--"@)) {
        lemma_comment(c);
    } else if c.starts_with(encode_utf8("<?"@)) {
        lemma_instruction(m);
    } else if c.starts_with(encode_utf8("<!"@)) {
    } else if c.starts_with(encode_utf8("<"@)) {
        lemma_element_start(c);
    } else if c.starts_with_space() {
        c.lemma_skip_spaces();
    }
}

proof fn lemma_in_elements(m: Machine)
    requires
        m.wf(),
        !m.stream.at_end(),
        m.state != State::End,
    ensures
        move_ok(m, m.in_elements()),
{
    let c = m.stream;
    if c.curr() != 0x3C {
        lemma_text(c);
    } else {
        lemma_markup(c);
        match c.next_byte() {
            Err(_) => {},
            Ok(b) => {
                if b == 0x21 {
                    if c.starts_with(encode_utf8("<!--"@)) {
                        lemma_comment(c);
                    } else if c.starts_with(encode_utf8("<![CDATA["@)) {
                        lemma_cdata(c);
                    }
                } else if b == 0x3F {
                    lemma_instruction(m);
                } else if b == 0x2F {
                    lemma_close_element(c);
                } else {
                    lemma_element_start(c);
                }
            },
        }
    }
}

proof fn lemma_in_attributes(m: Machine)
    requires
        m.wf(),
        !m.stream.at_end(),
        m.state != State::End,
    ensures
        move_ok(m, m.in_attributes()),
{
    lemma_attribute(m.stream);
}

proof fn lemma_in_after_elements(m: Machine)
    requires
        m.wf(),
        !m.stream.at_end(),
        m.state != State::End,
    ensures
        move_ok(m, m.in_after_elements()),
{
    let c = m.stream;
    if c.starts_with(encode_utf8("<!--"@)) {
        lemma_comment(c);
    } else if c.starts_with(encode_utf8("<?"@)) {
        lemma_instruction(m);
    } else if c.starts_with_space() {
        c.lemma_skip_spaces();
    }
}

/// What holds of what any state makes of a stream that is not at its end.
pub proof fn lemma_dispatch(m: Machine)
    requires
        m.wf(),
        !m.stream.at_end(),
        m.state != State::End,
    ensures
        move_ok(m, m.dispatch()),
{
    match m.state {
        State::Declaration => lemma_in_declaration(m),
        State::AfterDeclaration => lemma_in_after_declaration(m),
        State::Dtd => lemma_in_dtd(m),
        State::AfterDtd => lemma_in_after_dtd(m),
        State::Elements => lemma_in_elements(m),
        State::Attributes => lemma_in_attributes(m),
        State::AfterElements => lemma_in_after_elements(m),
        State::End => {},
    }
}

/// What holds of the search for the next construct.
pub proof fn lemma_parse_next(m: Machine)
    requires
        m.wf(),
        m.state != State::End,
    ensures
        pull_ok(m, m.parse_next().0, m.parse_next().1),
    decreases m.stream.remaining(), m.state.rank(),
{
    if !m.stream.at_end() {
        lemma_dispatch(m);
        if let Move::Again(after) = m.dispatch() {
            m.lemma_again();
            lemma_parse_next(after);
        }
    }
}

/// Every pull leaves a well-formed tokenizer over the same text, not
/// before where it was; a token covers what was read; `None` leaves the
/// tokenizer at the end of its stream or in the state `End`.
pub proof fn lemma_next(m: Machine)
    requires
        m.wf(),
    ensures
        m.next().0.wf(),
        m.next().0.fragment == m.fragment,
        m.next().0.stream.follows(m.stream),
        match m.next().1 {
            Some(Ok(t)) => {
                &&& m.next().0.state != State::End
                &&& placed(t, m.stream, m.next().0.stream)
                &&& t.lies_in(m.stream.bytes)
                &&& shaped(t, m.stream.bytes)
                &&& clean(t)
                &&& m.next().0.depth == depth_after(m.depth, t)
            },
            Some(Err(_)) => m.next().0.state == State::End && m.next().0.stream.at_end(),
            None => m.next().0.stream.at_end() || m.next().0.state == State::End,
        },
{
    if !(m.stream.at_end() || m.state == State::End) {
        lemma_parse_next(m);
    }
}

/// Everything that the tokenizer yields until it yields `None`: the
/// tokens in the order of the text and, last, the error if there is one.
pub open spec fn all_pulls(m: Machine) -> Seq<Result<Lexeme, crate::error::Fault>>
    decreases m.stream.remaining(),
    when m.wf()
{
    match m.next().1 {
        None => Seq::empty(),
        Some(r) => {
            proof {
                lemma_next(m);
            }
            seq![r] + all_pulls(m.next().0)
        },
    }
}

/// The tokenizer after `n` pulls.
pub open spec fn after_pulls(m: Machine, n: nat) -> Machine
    decreases n,
{
    if n == 0 {
        m
    } else {
        after_pulls(m.next().0, (n - 1) as nat)
    }
}

/// Termination, one pull at a time: a pull that yields a token or an error
/// leaves fewer bytes to read than there were.
pub proof fn law_pull_consumes(m: Machine)
    requires
        m.wf(),
        m.next().1 is Some,
    ensures
        m.next().0.wf(),
        m.next().0.stream.remaining() < m.stream.remaining(),
{
    lemma_next(m);
}

/// Once a pull has yielded `None`, every later pull yields `None` and
/// leaves the tokenizer as it is.
pub proof fn law_end_is_final(m: Machine)
    requires
        m.wf(),
        m.next().1 is None,
    ensures
        m.next().0.next() == (m.next().0, None::<Result<Lexeme, crate::error::Fault>>),
{
    lemma_next(m);
}

/// Termination: the pulls that yield a token or an error are at most as
/// many as the bytes that are left to read. After that many pulls, and
/// after any greater number, the pull yields `None`.
pub proof fn law_pulls_end(m: Machine, n: nat)
    requires
        m.wf(),
        n >= m.stream.remaining(),
    ensures
        after_pulls(m, n).wf(),
        after_pulls(m, n).next().1 is None,
    decreases n,
{
    lemma_next(m);
    if n == 0 {
    } else {
        if m.next().1 is None {
            law_end_is_final(m);
        }
        law_pulls_end(m.next().0, (n - 1) as nat);
    }
}

/// Error terminality: behind an error the tokenizer is in the state `End`
/// at the end of its stream, and every later pull yields `None`.
pub proof fn law_error_is_final(m: Machine)
    requires
        m.wf(),
        m.next().1 is Some,
        m.next().1->0 is Err,
    ensures
        m.next().0.state == State::End,
        m.next().0.stream.at_end(),
        m.next().0.next() == (m.next().0, None::<Result<Lexeme, crate::error::Fault>>),
{
    lemma_next(m);
}

/// Every span of a token is a part of the text between two character
/// boundaries: the span of the whole token within the part of the text
/// that is read, and each part that the token names within that span.
pub proof fn law_spans_lie_in_text(m: Machine, t: Lexeme)
    requires
        m.wf(),
        m.next().1 == Some::<Result<Lexeme, crate::error::Fault>>(Ok(t)),
    ensures
        t.lies_in(m.stream.bytes),
        m.stream.pos <= t.span().start,
        t.span().end() <= m.stream.end,
{
    lemma_next(m);
}

/// Every token has the shape of its kind: it starts and ends with the
/// markup of its kind, and its parts stand in it where they belong.
pub proof fn law_tokens_are_shaped(m: Machine, t: Lexeme)
    requires
        m.wf(),
        m.next().1 == Some::<Result<Lexeme, crate::error::Fault>>(Ok(t)),
    ensures
        shaped(t, m.stream.bytes),
{
    lemma_next(m);
}

/// Text safety: the text of a `Text` token holds no `]]>`.
pub proof fn law_text_is_safe(m: Machine, text: crate::strspan::Slice)
    requires
        m.wf(),
        m.next().1 == Some::<Result<Lexeme, crate::error::Fault>>(Ok(Lexeme::Text { text })),
    ensures
        !occurs(text.bytes, encode_utf8("]]>"@)),
{
    lemma_next(m);
}

/// Comment safety: the text of a `Comment` token holds no `--` and does
/// not end with `-`.
pub proof fn law_comment_is_safe(
    m: Machine,
    text: crate::strspan::Slice,
    span: crate::strspan::Slice,
)
    requires
        m.wf(),
        m.next().1 == Some::<Result<Lexeme, crate::error::Fault>>(
            Ok(Lexeme::Comment { text, span }),
        ),
    ensures
        !occurs(text.bytes, encode_utf8("--"@)),
        text.bytes.len() > 0 ==> text.bytes.last() != 0x2D,
{
    lemma_next(m);
}

/// Monotone position: a token starts at or behind the position of the
/// stream before the pull and ends at the position behind it; so of two
/// tokens that follow one another the second starts where the first ends,
/// or behind it.
pub proof fn law_positions_are_monotone(m: Machine, first: Lexeme, second: Lexeme)
    requires
        m.wf(),
        m.next().1 == Some::<Result<Lexeme, crate::error::Fault>>(Ok(first)),
        m.next().0.next().1 == Some::<Result<Lexeme, crate::error::Fault>>(Ok(second)),
    ensures
        m.stream.pos <= first.span().start,
        first.span().start < first.span().end(),
        first.span().end() == m.next().0.stream.pos,
        first.span().end() <= second.span().start,
        first.span().start <= second.span().start,
{
    lemma_next(m);
    lemma_next(m.next().0);
}

/// Depth saturation: the count of open elements is a natural number at
/// every pull; a closing tag takes one from it unless it is zero, `>` at
/// the end of a start tag adds one, and no other token changes it. It is
/// never more than the position of the stream.
pub proof fn law_depth_saturates(m: Machine, t: Lexeme)
    requires
        m.wf(),
        m.next().1 == Some::<Result<Lexeme, crate::error::Fault>>(Ok(t)),
    ensures
        m.next().0.depth == depth_after(m.depth, t),
        m.next().0.depth >= 0,
        m.next().0.depth <= m.next().0.stream.pos,
        t matches Lexeme::ElementEnd { end: Ending::Close(_, _), .. } && m.depth == 0
            ==> m.next().0.depth == 0,
{
    lemma_next(m);
}

} // verus!
