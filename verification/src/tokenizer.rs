//! The tokenizer: a pull parser that yields the tokens of an XML text one by one.

use vstd::prelude::*;
use vstd::string::StringSliceAdditionalSpecFns;
use vstd::utf8::*;
use crate::grammar;
use crate::cursor::{bytes_other_than, digit_bytes};
use crate::encoding::is_boundary;
use crate::error::{Error, Fault, StreamError, StreamFault};
use crate::grammar::{
    attribute_value_chars,
    chars_up_to,
    encoding_name_bytes,
    lemma_markup,
    lemma_starts_with_ascii,
    located,
    occurs,
    occurs_at,
    text_chars,
    Construct,
};
use crate::laws::{depth_after, lemma_next, lemma_parse_next};
use crate::machine::{Machine, Move, Pull, State};
use crate::soundness::{clean, lemma_comment, lemma_text, placed, shaped};
use crate::stream::{same_text, Stream};
use crate::strspan::StrSpan;
use crate::token::{
    optional_external,
    optional_slice,
    ElementEnd,
    EntityDefinition,
    ExternalId,
    Lexeme,
    Token,
};
use crate::xmlchar::{is_digit_byte, is_letter_byte, XmlByteExt};
use core::ops::Range;

verus! {

/// Checks that `needle` occurs in `hay`.
fn contains_bytes(hay: &[u8], needle: &[u8]) -> (r: bool)
    ensures
        r == occurs(hay@, needle@),
{
    let n = needle.len();
    if n > hay.len() {
        assert forall|i: int| !occurs_at(hay@, needle@, i) by {}
        return false;
    }
    let last = hay.len() - n;
    let mut i: usize = 0;
    while i <= last
        invariant
            n == needle@.len(),
            hay@.len() <= usize::MAX,
            last == hay@.len() - n,
            i <= last + 1,
            forall|j: int| 0 <= j < i ==> !occurs_at(hay@, needle@, j),
        decreases last + 1 - i,
    {
        let mut k: usize = 0;
        while k < n && hay[i + k] == needle[k]
            invariant
                n == needle@.len(),
                hay@.len() <= usize::MAX,
                last == hay@.len() - n,
                i <= last,
                k <= n,
                forall|j: int| 0 <= j < k ==> hay@[i + j] == needle@[j],
            decreases n - k,
        {
            k += 1;
        }
        if k == n {
            assert(hay@.subrange(i as int, i + n) =~= needle@);
            assert(occurs_at(hay@, needle@, i as int));
            return true;
        }
        assert(!occurs_at(hay@, needle@, i as int)) by {
            if occurs_at(hay@, needle@, i as int) {
                assert(hay@.subrange(i as int, i + n)[k as int] == needle@[k as int]);
            }
        }
        i += 1;
    }
    assert forall|j: int| !occurs_at(hay@, needle@, j) by {}
    false
}

/// Tokenizer for the XML structure.
pub struct Tokenizer<'a> {
    stream: Stream<'a>,
    state: State,
    depth: usize,
    fragment_parsing: bool,
}

impl<'a> View for Tokenizer<'a> {
    type V = Machine;

    closed spec fn view(&self) -> Machine {
        Machine {
            stream: self.stream@,
            state: self.state,
            depth: self.depth as nat,
            fragment: self.fragment_parsing,
        }
    }
}

impl<'a> Tokenizer<'a> {
    /// Reads an XML declaration, which stands at the position.
    pub(crate) fn parse_declaration(s: &mut Stream<'a>) -> (r: Result<Token<'a>, Error>)
        requires
            old(s).wf(),
            old(s)@.starts_with(encode_utf8("<?xml "@)),
        ensures
            final(s).wf(),
            final(s)@.follows(old(s)@),
            match located(Construct::Declaration, old(s)@, grammar::declaration(old(s)@)) {
                Ok((c, t)) => r is Ok && r->Ok_0@ == t && final(s)@ == c,
                Err(e) => r is Err && r->Err_0@ == e,
            },
            // The token covers what was read and has the shape of its kind.
            r is Ok ==> {
                &&& placed(r->Ok_0@, old(s)@, final(s)@)
                &&& r->Ok_0@.span().start == old(s)@.pos
                &&& r->Ok_0@.lies_in(old(s)@.bytes)
                &&& shaped(r->Ok_0@, old(s)@.bytes)
            },
    {
        proof {
            crate::soundness::lemma_declaration(s@);
        }
        let start = s.pos();
        match Self::parse_declaration_impl(s) {
            Ok(t) => Ok(t),
            Err(e) => Err(Error::InvalidDeclaration(e, s.gen_text_pos_from(start))),
        }
    }

    /// The white space between the parts of the declaration.
    pub(crate) fn consume_declaration_space(s: &mut Stream<'a>) -> (r: Result<(), StreamError>)
        requires
            old(s).wf(),
        ensures
            final(s).wf(),
            final(s)@.follows(old(s)@),
            match grammar::declaration_space(old(s)@) {
                Ok(c) => r is Ok && final(s)@ == c,
                Err(e) => r is Err && r->Err_0@ == e,
            },
    {
        if s.starts_with_space() {
            s.skip_spaces();
        } else if !s.starts_with("?>".as_bytes()) && !s.at_end() {
            return Err(StreamError::InvalidSpace(s.curr_byte_unchecked(), s.gen_text_pos()));
        }
        Ok(())
    }

    // XMLDecl ::= '<?xml' VersionInfo EncodingDecl? SDDecl? S? '?>'
    pub(crate) fn parse_declaration_impl(s: &mut Stream<'a>) -> (r: Result<Token<'a>, StreamError>)
        requires
            old(s).wf(),
            old(s)@.starts_with(encode_utf8("<?xml "@)),
        ensures
            final(s).wf(),
            final(s)@.follows(old(s)@),
            match grammar::declaration(old(s)@) {
                Ok((c, t)) => r is Ok && r->Ok_0@ == t && final(s)@ == c,
                Err(e) => r is Err && r->Err_0@ == e,
            },
    {
        proof {
            reveal(grammar::declaration);
        }
        let start = s.pos();
        proof {
            reveal_strlit("<?xml ");
            lemma_starts_with_ascii(s@, "<?xml "@);
        }
        s.advance(6);
        let version = Self::parse_version_info(s)?;
        Self::consume_declaration_space(s)?;
        let encoding = Self::parse_encoding_decl(s)?;
        if encoding.is_some() {
            Self::consume_declaration_space(s)?;
        }
        let standalone = Self::parse_standalone(s)?;
        s.skip_spaces();
        s.skip_text("?>")?;
        let span = s.slice_back(start);
        Ok(Token::Declaration { version, encoding, standalone, span })
    }

    // VersionInfo ::= S 'version' Eq ("'" VersionNum "'" | '"' VersionNum '"')
    // VersionNum  ::= '1.' [0-9]+
    pub(crate) fn parse_version_info(s: &mut Stream<'a>) -> (r: Result<StrSpan<'a>, StreamError>)
        requires
            old(s).wf(),
        ensures
            final(s).wf(),
            final(s)@.follows(old(s)@),
            match grammar::version_info(old(s)@) {
                Ok((c, v)) => r is Ok && r->Ok_0@ == v && final(s)@ == c,
                Err(e) => r is Err && r->Err_0@ == e,
            },
    {
        s.skip_spaces();
        s.skip_text("version")?;
        s.consume_eq()?;
        let quote = s.consume_quote()?;
        let start = s.pos();
        s.skip_text("1.")?;
        let f = |_s: &Stream, c: u8| -> (r: bool)
            ensures
                r == is_digit_byte(c),
            { c.is_xml_digit() };
        let digits = s.consume_bytes_by(f, Ghost(digit_bytes()));
        let ver = s.slice_back(start);
        s.consume_byte(quote)?;
        // At least one digit follows `1.`.
        if digits.is_empty() {
            let expected: &'static [u8] = &[
                0x30,
                0x31,
                0x32,
                0x33,
                0x34,
                0x35,
                0x36,
                0x37,
                0x38,
                0x39,
            ];
            assert(expected@ =~= grammar::version_digits());
            let pos = s.gen_text_pos_from(digits.start());
            return Err(StreamError::InvalidCharMultiple(quote, expected, pos));
        }
        Ok(ver)
    }

    // EncodingDecl ::= S 'encoding' Eq ('"' EncName '"' | "'" EncName "'" )
    // EncName      ::= [A-Za-z] ([A-Za-z0-9._] | '-')*
    pub(crate) fn parse_encoding_decl(s: &mut Stream<'a>) -> (r: Result<Option<StrSpan<'a>>, StreamError>)
        requires
            old(s).wf(),
        ensures
            final(s).wf(),
            final(s)@.follows(old(s)@),
            match grammar::encoding_decl(old(s)@) {
                Ok((c, v)) => r is Ok && optional_slice(r->Ok_0) == v && final(s)@ == c,
                Err(e) => r is Err && r->Err_0@ == e,
            },
    {
        if !s.starts_with("encoding".as_bytes()) {
            return Ok(None);
        }
        proof {
            reveal_strlit("encoding");
            lemma_starts_with_ascii(s@, "encoding"@);
        }
        s.advance(8);
        s.consume_eq()?;
        let quote = s.consume_quote()?;
        let f = |_s: &Stream, c: u8| -> (r: bool)
            ensures
                r == (is_letter_byte(c) || is_digit_byte(c) || c == 0x2E || c == 0x2D || c
                    == 0x5F),
            { c.is_xml_letter() || c.is_xml_digit() || c == 0x2E || c == 0x2D || c == 0x5F };
        let name = s.consume_bytes_by(f, Ghost(encoding_name_bytes()));
        s.consume_byte(quote)?;
        // The name starts with a letter.
        if name.is_empty() || !name.as_str().as_bytes()[0].is_xml_letter() {
            return Err(StreamError::InvalidName);
        }
        Ok(Some(name))
    }

    // SDDecl ::= S 'standalone' Eq (("'" ('yes' | 'no') "'") | ('"' ('yes' | 'no') '"'))
    pub(crate) fn parse_standalone(s: &mut Stream<'a>) -> (r: Result<Option<bool>, StreamError>)
        requires
            old(s).wf(),
        ensures
            final(s).wf(),
            final(s)@.follows(old(s)@),
            match grammar::standalone_decl(old(s)@) {
                Ok((c, v)) => r == Ok::<Option<bool>, StreamError>(v) && final(s)@ == c,
                Err(e) => r is Err && r->Err_0@ == e,
            },
    {
        if !s.starts_with("standalone".as_bytes()) {
            return Ok(None);
        }
        proof {
            reveal_strlit("standalone");
            lemma_starts_with_ascii(s@, "standalone"@);
        }
        s.advance(10);
        s.consume_eq()?;
        let quote = s.consume_quote()?;
        let start = s.pos();
        let value = s.consume_name()?.as_str();
        let flag = if same_text(value, "yes") {
            true
        } else if same_text(value, "no") {
            false
        } else {
            let pos = s.gen_text_pos_from(start);
            return Err(StreamError::InvalidString("yes', 'no", pos));
        };
        s.consume_byte(quote)?;
        Ok(Some(flag))
    }

    /// Reads a comment, which stands at the position.
    pub(crate) fn parse_comment(s: &mut Stream<'a>) -> (r: Result<Token<'a>, Error>)
        requires
            old(s).wf(),
            old(s)@.starts_with(encode_utf8("<!--"@)),
        ensures
            final(s).wf(),
            final(s)@.follows(old(s)@),
            match located(Construct::Comment, old(s)@, grammar::comment(old(s)@)) {
                Ok((c, t)) => r is Ok && r->Ok_0@ == t && final(s)@ == c,
                Err(e) => r is Err && r->Err_0@ == e,
            },
            // A comment covers what was read, from `<!--` to `-->`; its text
            // lies between the two, holds no `--` and does not end with `-`.
            r is Ok ==> {
                &&& r->Ok_0@ is Comment
                &&& r->Ok_0@.span().start == old(s)@.pos
                &&& placed(r->Ok_0@, old(s)@, final(s)@)
                &&& r->Ok_0@.lies_in(old(s)@.bytes)
                &&& shaped(r->Ok_0@, old(s)@.bytes)
                &&& clean(r->Ok_0@)
            },
            // The text runs up to the first `-->`. What is no XML character or
            // a missing `-->` fails as the stream says; a text with `--` fails
            // with `InvalidCommentData`, one that ends with `-` with
            // `InvalidCommentEnd`; each fault stands at the start of the comment.
            match old(s)@.advance(4).consume_chars(chars_up_to('-', "-->"@)) {
                Err(e) => r is Err && r->Err_0@ == Fault::InvalidComment(
                    e,
                    old(s)@.text_pos_from(old(s)@.pos),
                ),
                Ok((c1, body)) => match c1.skip_string(encode_utf8("-->"@)) {
                    Err(e) => r is Err && r->Err_0@ == Fault::InvalidComment(
                        e,
                        old(s)@.text_pos_from(old(s)@.pos),
                    ),
                    Ok(c2) => if occurs(body.bytes, encode_utf8("--"@)) {
                        r is Err && r->Err_0@ == Fault::InvalidComment(
                            StreamFault::InvalidCommentData,
                            old(s)@.text_pos_from(old(s)@.pos),
                        )
                    } else if body.bytes.len() > 0 && body.bytes.last() == 0x2D {
                        r is Err && r->Err_0@ == Fault::InvalidComment(
                            StreamFault::InvalidCommentEnd,
                            old(s)@.text_pos_from(old(s)@.pos),
                        )
                    } else {
                        r is Ok && final(s)@ == c2 && r->Ok_0@ == (Lexeme::Comment {
                            text: body,
                            span: c2.slice_back(old(s)@.pos),
                        })
                    },
                },
            },
    {
        proof {
            reveal(grammar::comment);
            lemma_comment(s@);
        }
        let start = s.pos();
        match Self::parse_comment_impl(s) {
            Ok(t) => Ok(t),
            Err(e) => Err(Error::InvalidComment(e, s.gen_text_pos_from(start))),
        }
    }

    // '<!--' ((Char - '-') | ('-' (Char - '-')))* '-->'
    pub(crate) fn parse_comment_impl(s: &mut Stream<'a>) -> (r: Result<Token<'a>, StreamError>)
        requires
            old(s).wf(),
            old(s)@.starts_with(encode_utf8("<!--"@)),
        ensures
            final(s).wf(),
            final(s)@.follows(old(s)@),
            match grammar::comment(old(s)@) {
                Ok((c, t)) => r is Ok && r->Ok_0@ == t && final(s)@ == c,
                Err(e) => r is Err && r->Err_0@ == e,
            },
    {
        proof {
            reveal(grammar::comment);
        }
        let start = s.pos();
        proof {
            reveal_strlit("<!--");
            lemma_starts_with_ascii(s@, "<!--"@);
        }
        s.advance(4);
        let f = |t: &Stream, c: char| -> (r: bool)
            requires
                t.wf(),
            ensures
                r == chars_up_to('-', "-->"@)(t@, c),
            { !(c == '-' && t.starts_with("-->".as_bytes())) };
        let text = s.consume_chars_by(f, Ghost(chars_up_to('-', "-->"@)))?;
        s.skip_text("-->")?;
        if contains_bytes(text.as_str().as_bytes(), "--".as_bytes()) {
            return Err(StreamError::InvalidCommentData);
        }
        let bytes = text.as_str().as_bytes();
        if bytes.len() > 0 && bytes[bytes.len() - 1] == 0x2D {
            return Err(StreamError::InvalidCommentEnd);
        }
        let span = s.slice_back(start);
        Ok(Token::Comment { text, span })
    }

    /// Reads a processing instruction, which stands at the position.
    pub(crate) fn parse_pi(s: &mut Stream<'a>) -> (r: Result<Token<'a>, Error>)
        requires
            old(s).wf(),
            old(s)@.starts_with(encode_utf8("<?"@)),
        ensures
            final(s).wf(),
            final(s)@.follows(old(s)@),
            match located(
                Construct::ProcessingInstruction,
                old(s)@,
                grammar::processing_instruction(old(s)@),
            ) {
                Ok((c, t)) => r is Ok && r->Ok_0@ == t && final(s)@ == c,
                Err(e) => r is Err && r->Err_0@ == e,
            },
            // The token covers what was read and has the shape of its kind.
            r is Ok ==> {
                &&& placed(r->Ok_0@, old(s)@, final(s)@)
                &&& r->Ok_0@.span().start == old(s)@.pos
                &&& r->Ok_0@.lies_in(old(s)@.bytes)
                &&& shaped(r->Ok_0@, old(s)@.bytes)
            },
    {
        proof {
            crate::soundness::lemma_processing_instruction(s@);
        }
        let start = s.pos();
        match Self::parse_pi_impl(s) {
            Ok(t) => Ok(t),
            Err(e) => Err(Error::InvalidPI(e, s.gen_text_pos_from(start))),
        }
    }

    // PI       ::= '<?' PITarget (S (Char* - (Char* '?>' Char*)))? '?>'
    // PITarget ::= Name - (('X' | 'x') ('M' | 'm') ('L' | 'l'))
    pub(crate) fn parse_pi_impl(s: &mut Stream<'a>) -> (r: Result<Token<'a>, StreamError>)
        requires
            old(s).wf(),
            old(s)@.starts_with(encode_utf8("<?"@)),
        ensures
            final(s).wf(),
            final(s)@.follows(old(s)@),
            match grammar::processing_instruction(old(s)@) {
                Ok((c, t)) => r is Ok && r->Ok_0@ == t && final(s)@ == c,
                Err(e) => r is Err && r->Err_0@ == e,
            },
    {
        proof {
            reveal(grammar::processing_instruction);
        }
        let start = s.pos();
        proof {
            reveal_strlit("<?");
            lemma_starts_with_ascii(s@, "<?"@);
        }
        s.advance(2);
        let target = s.consume_name()?;
        s.skip_spaces();
        let f = |t: &Stream, c: char| -> (r: bool)
            requires
                t.wf(),
            ensures
                r == chars_up_to('?', "?>"@)(t@, c),
            { !(c == '?' && t.starts_with("?>".as_bytes())) };
        let content = s.consume_chars_by(f, Ghost(chars_up_to('?', "?>"@)))?;
        let content = if !content.is_empty() {
            Some(content)
        } else {
            None
        };
        s.skip_text("?>")?;
        let span = s.slice_back(start);
        Ok(Token::ProcessingInstruction { target, content, span })
    }

    /// Reads the start of a document type declaration, which stands at the position.
    pub(crate) fn parse_doctype(s: &mut Stream<'a>) -> (r: Result<Token<'a>, Error>)
        requires
            old(s).wf(),
            old(s)@.starts_with(encode_utf8("<!DOCTYPE"@)),
        ensures
            final(s).wf(),
            final(s)@.follows(old(s)@),
            match located(Construct::Doctype, old(s)@, grammar::doctype(old(s)@)) {
                Ok((c, t)) => r is Ok && r->Ok_0@ == t && final(s)@ == c,
                Err(e) => r is Err && r->Err_0@ == e,
            },
            // The token covers what was read and has the shape of its kind.
            r is Ok ==> {
                &&& placed(r->Ok_0@, old(s)@, final(s)@)
                &&& r->Ok_0@.span().start == old(s)@.pos
                &&& r->Ok_0@.lies_in(old(s)@.bytes)
                &&& shaped(r->Ok_0@, old(s)@.bytes)
            },
    {
        proof {
            crate::soundness::lemma_doctype(s@);
        }
        let start = s.pos();
        match Self::parse_doctype_impl(s) {
            Ok(t) => Ok(t),
            Err(e) => Err(Error::InvalidDoctype(e, s.gen_text_pos_from(start))),
        }
    }

    // doctypedecl ::= '<!DOCTYPE' S Name (S ExternalID)? S? ('[' intSubset ']' S?)? '>'
    pub(crate) fn parse_doctype_impl(s: &mut Stream<'a>) -> (r: Result<Token<'a>, StreamError>)
        requires
            old(s).wf(),
            old(s)@.starts_with(encode_utf8("<!DOCTYPE"@)),
        ensures
            final(s).wf(),
            final(s)@.follows(old(s)@),
            match grammar::doctype(old(s)@) {
                Ok((c, t)) => r is Ok && r->Ok_0@ == t && final(s)@ == c,
                Err(e) => r is Err && r->Err_0@ == e,
            },
    {
        proof {
            reveal(grammar::doctype);
        }
        let start = s.pos();
        proof {
            reveal_strlit("<!DOCTYPE");
            lemma_starts_with_ascii(s@, "<!DOCTYPE"@);
        }
        s.advance(9);
        s.consume_spaces()?;
        let name = s.consume_name()?;
        s.skip_spaces();
        let external_id = Self::parse_external_id(s)?;
        s.skip_spaces();
        let c = s.curr_byte()?;
        if c != 0x5B && c != 0x3E {
            let expected: &'static [u8] = &[0x5B, 0x3E];
            assert(expected@ =~= grammar::doctype_ends());
            return Err(StreamError::InvalidCharMultiple(c, expected, s.gen_text_pos()));
        }
        proof {
            crate::encoding::lemma_ascii_boundary(s@.bytes, s@.pos);
        }
        s.advance(1);
        let span = s.slice_back(start);
        if c == 0x5B {
            Ok(Token::DtdStart { name, external_id, span })
        } else {
            Ok(Token::EmptyDtd { name, external_id, span })
        }
    }

    /// A literal in quotes.
    pub(crate) fn parse_quoted_literal(s: &mut Stream<'a>) -> (r: Result<StrSpan<'a>, StreamError>)
        requires
            old(s).wf(),
        ensures
            final(s).wf(),
            final(s)@.follows(old(s)@),
            match grammar::quoted_literal(old(s)@) {
                Ok((c, v)) => r is Ok && r->Ok_0@ == v && final(s)@ == c,
                Err(e) => r is Err && r->Err_0@ == e,
            },
    {
        let quote = s.consume_quote()?;
        let f = |_s: &Stream, c: u8| -> (r: bool)
            ensures
                r == (c != quote),
            { c != quote };
        let literal = s.consume_bytes_by(f, Ghost(bytes_other_than(quote)));
        s.consume_byte(quote)?;
        Ok(literal)
    }

    // ExternalID ::= 'SYSTEM' S SystemLiteral | 'PUBLIC' S PubidLiteral S SystemLiteral
    pub(crate) fn parse_external_id(s: &mut Stream<'a>) -> (r: Result<Option<ExternalId<'a>>, StreamError>)
        requires
            old(s).wf(),
        ensures
            final(s).wf(),
            final(s)@.follows(old(s)@),
            match grammar::external_id(old(s)@) {
                Ok((c, v)) => r is Ok && optional_external(r->Ok_0) == v && final(s)@ == c,
                Err(e) => r is Err && r->Err_0@ == e,
            },
    {
        let system = s.starts_with("SYSTEM".as_bytes());
        let v = if system || s.starts_with("PUBLIC".as_bytes()) {
            proof {
                reveal_strlit("SYSTEM");
                reveal_strlit("PUBLIC");
                if system {
                    lemma_starts_with_ascii(s@, "SYSTEM"@);
                } else {
                    lemma_starts_with_ascii(s@, "PUBLIC"@);
                }
            }
            s.advance(6);
            s.consume_spaces()?;
            let literal1 = Self::parse_quoted_literal(s)?;
            let v = if system {
                ExternalId::System(literal1)
            } else {
                s.consume_spaces()?;
                let literal2 = Self::parse_quoted_literal(s)?;
                ExternalId::Public(literal1, literal2)
            };
            Some(v)
        } else {
            None
        };
        Ok(v)
    }

    /// Reads an entity declaration, which stands at the position.
    pub(crate) fn parse_entity_decl(s: &mut Stream<'a>) -> (r: Result<Token<'a>, Error>)
        requires
            old(s).wf(),
            old(s)@.starts_with(encode_utf8("<!ENTITY"@)),
        ensures
            final(s).wf(),
            final(s)@.follows(old(s)@),
            match located(Construct::Entity, old(s)@, grammar::entity_decl(old(s)@)) {
                Ok((c, t)) => r is Ok && r->Ok_0@ == t && final(s)@ == c,
                Err(e) => r is Err && r->Err_0@ == e,
            },
            // The token covers what was read and has the shape of its kind.
            r is Ok ==> {
                &&& placed(r->Ok_0@, old(s)@, final(s)@)
                &&& r->Ok_0@.span().start == old(s)@.pos
                &&& r->Ok_0@.lies_in(old(s)@.bytes)
                &&& shaped(r->Ok_0@, old(s)@.bytes)
            },
    {
        proof {
            crate::soundness::lemma_entity_decl(s@);
        }
        let start = s.pos();
        match Self::parse_entity_decl_impl(s) {
            Ok(t) => Ok(t),
            Err(e) => Err(Error::InvalidEntity(e, s.gen_text_pos_from(start))),
        }
    }

    // EntityDecl ::= '<!ENTITY' S '%'? S? Name S EntityDef S? '>'
    pub(crate) fn parse_entity_decl_impl(s: &mut Stream<'a>) -> (r: Result<Token<'a>, StreamError>)
        requires
            old(s).wf(),
            old(s)@.starts_with(encode_utf8("<!ENTITY"@)),
        ensures
            final(s).wf(),
            final(s)@.follows(old(s)@),
            match grammar::entity_decl(old(s)@) {
                Ok((c, t)) => r is Ok && r->Ok_0@ == t && final(s)@ == c,
                Err(e) => r is Err && r->Err_0@ == e,
            },
    {
        proof {
            reveal(grammar::entity_decl);
        }
        let start = s.pos();
        proof {
            reveal_strlit("<!ENTITY");
            lemma_starts_with_ascii(s@, "<!ENTITY"@);
        }
        s.advance(8);
        s.consume_spaces()?;
        let is_ge = if s.try_consume_byte(0x25) {
            s.skip_spaces();
            false
        } else {
            true
        };
        let name = s.consume_name()?;
        s.consume_spaces()?;
        let definition = Self::parse_entity_def(s, is_ge)?;
        s.skip_spaces();
        s.consume_byte(0x3E)?;
        let span = s.slice_back(start);
        Ok(Token::EntityDeclaration { name, definition, span })
    }

    // EntityDef   ::= EntityValue | (ExternalID NDataDecl?)
    // PEDef       ::= EntityValue | ExternalID
    // EntityValue ::= '"' ([^%&"] | PEReference | Reference)* '"' |  "'" ([^%&']
    //                             | PEReference | Reference)* "'"
    // ExternalID  ::= 'SYSTEM' S SystemLiteral | 'PUBLIC' S PubidLiteral S SystemLiteral
    // NDataDecl   ::= S 'NDATA' S Name
    pub(crate) fn parse_entity_def(s: &mut Stream<'a>, is_ge: bool) -> (r: Result<
        EntityDefinition<'a>,
        StreamError,
    >)
        requires
            old(s).wf(),
        ensures
            final(s).wf(),
            final(s)@.follows(old(s)@),
            match grammar::entity_def(old(s)@, is_ge) {
                Ok((c, v)) => r is Ok && r->Ok_0@ == v && final(s)@ == c,
                Err(e) => r is Err && r->Err_0@ == e,
            },
    {
        let c = s.curr_byte()?;
        if c == 0x22 || c == 0x27 {
            let value = Self::parse_quoted_literal(s)?;
            Ok(EntityDefinition::EntityValue(value))
        } else if c == 0x53 || c == 0x50 {
            match Self::parse_external_id(s)? {
                Some(id) => {
                    if is_ge {
                        let has_space = s.starts_with_space();
                        s.skip_spaces();
                        if has_space && s.starts_with("NDATA".as_bytes()) {
                            proof {
                                reveal_strlit("NDATA");
                                lemma_starts_with_ascii(s@, "NDATA"@);
                            }
                            s.advance(5);
                            s.consume_spaces()?;
                            // The name of the notation is read and dropped.
                            s.skip_name()?;
                        }
                    }
                    Ok(EntityDefinition::ExternalId(id))
                },
                None => Err(StreamError::InvalidExternalID),
            }
        } else {
            let expected: &'static [u8] = &[0x22, 0x27, 0x53, 0x50];
            assert(expected@ =~= grammar::entity_def_starts());
            let pos = s.gen_text_pos();
            Err(StreamError::InvalidCharMultiple(c, expected, pos))
        }
    }

    pub(crate) fn consume_decl(s: &mut Stream<'a>) -> (r: Result<(), StreamError>)
        requires
            old(s).wf(),
        ensures
            final(s).wf(),
            final(s)@.follows(old(s)@),
            match grammar::skipped_decl(old(s)@) {
                Ok(c) => r is Ok && final(s)@ == c,
                Err(e) => r is Err && r->Err_0@ == e,
            },
    {
        let f = |_s: &Stream, c: u8| -> (r: bool)
            ensures
                r == (c != 0x3E),
            { c != 0x3E };
        let _ = s.consume_bytes_by(f, Ghost(bytes_other_than(0x3E)));
        s.consume_byte(0x3E)?;
        Ok(())
    }

    /// Reads a CDATA section, which stands at the position.
    pub(crate) fn parse_cdata(s: &mut Stream<'a>) -> (r: Result<Token<'a>, Error>)
        requires
            old(s).wf(),
            old(s)@.starts_with(encode_utf8("<![CDATA["@)),
        ensures
            final(s).wf(),
            final(s)@.follows(old(s)@),
            match located(Construct::Cdata, old(s)@, grammar::cdata(old(s)@)) {
                Ok((c, t)) => r is Ok && r->Ok_0@ == t && final(s)@ == c,
                Err(e) => r is Err && r->Err_0@ == e,
            },
            // The token covers what was read and has the shape of its kind.
            r is Ok ==> {
                &&& placed(r->Ok_0@, old(s)@, final(s)@)
                &&& r->Ok_0@.span().start == old(s)@.pos
                &&& r->Ok_0@.lies_in(old(s)@.bytes)
                &&& shaped(r->Ok_0@, old(s)@.bytes)
            },
    {
        proof {
            crate::soundness::lemma_cdata(s@);
        }
        let start = s.pos();
        match Self::parse_cdata_impl(s) {
            Ok(t) => Ok(t),
            Err(e) => Err(Error::InvalidCdata(e, s.gen_text_pos_from(start))),
        }
    }

    // CDSect  ::= CDStart CData CDEnd
    // CDStart ::= '<![CDATA['
    // CData   ::= (Char* - (Char* ']]>' Char*))
    // CDEnd   ::= ']]>'
    pub(crate) fn parse_cdata_impl(s: &mut Stream<'a>) -> (r: Result<Token<'a>, StreamError>)
        requires
            old(s).wf(),
            old(s)@.starts_with(encode_utf8("<![CDATA["@)),
        ensures
            final(s).wf(),
            final(s)@.follows(old(s)@),
            match grammar::cdata(old(s)@) {
                Ok((c, t)) => r is Ok && r->Ok_0@ == t && final(s)@ == c,
                Err(e) => r is Err && r->Err_0@ == e,
            },
    {
        proof {
            reveal(grammar::cdata);
        }
        let start = s.pos();
        proof {
            reveal_strlit("<![CDATA[");
            lemma_starts_with_ascii(s@, "<![CDATA["@);
        }
        s.advance(9);
        let f = |t: &Stream, c: char| -> (r: bool)
            requires
                t.wf(),
            ensures
                r == chars_up_to(']', "]]>"@)(t@, c),
            { !(c == ']' && t.starts_with("]]>".as_bytes())) };
        let text = s.consume_chars_by(f, Ghost(chars_up_to(']', "]]>"@)))?;
        s.skip_text("]]>")?;
        let span = s.slice_back(start);
        Ok(Token::Cdata { text, span })
    }

    /// Reads the start of an element, which stands at the position.
    pub(crate) fn parse_element_start(s: &mut Stream<'a>) -> (r: Result<Token<'a>, Error>)
        requires
            old(s).wf(),
            old(s)@.starts_with(encode_utf8("<"@)),
        ensures
            final(s).wf(),
            final(s)@.follows(old(s)@),
            match located(Construct::Element, old(s)@, grammar::element_start(old(s)@)) {
                Ok((c, t)) => r is Ok && r->Ok_0@ == t && final(s)@ == c,
                Err(e) => r is Err && r->Err_0@ == e,
            },
            // The token covers what was read and has the shape of its kind.
            r is Ok ==> {
                &&& placed(r->Ok_0@, old(s)@, final(s)@)
                &&& r->Ok_0@.span().start == old(s)@.pos
                &&& r->Ok_0@.lies_in(old(s)@.bytes)
                &&& shaped(r->Ok_0@, old(s)@.bytes)
            },
    {
        proof {
            crate::soundness::lemma_element_start(s@);
        }
        let start = s.pos();
        match Self::parse_element_start_impl(s) {
            Ok(t) => Ok(t),
            Err(e) => Err(Error::InvalidElement(e, s.gen_text_pos_from(start))),
        }
    }

    // '<' Name (S Attribute)* S? '>'
    pub(crate) fn parse_element_start_impl(s: &mut Stream<'a>) -> (r: Result<Token<'a>, StreamError>)
        requires
            old(s).wf(),
            old(s)@.starts_with(encode_utf8("<"@)),
        ensures
            final(s).wf(),
            final(s)@.follows(old(s)@),
            match grammar::element_start(old(s)@) {
                Ok((c, t)) => r is Ok && r->Ok_0@ == t && final(s)@ == c,
                Err(e) => r is Err && r->Err_0@ == e,
            },
    {
        proof {
            reveal(grammar::element_start);
        }
        let start = s.pos();
        proof {
            reveal_strlit("<");
            lemma_starts_with_ascii(s@, "<"@);
        }
        s.advance(1);
        let (prefix, local) = s.consume_qname()?;
        let span = s.slice_back(start);
        Ok(Token::ElementStart { prefix, local, span })
    }

    /// Reads a closing tag, which stands at the position.
    pub(crate) fn parse_close_element(s: &mut Stream<'a>) -> (r: Result<Token<'a>, Error>)
        requires
            old(s).wf(),
            old(s)@.starts_with(encode_utf8("</"@)),
        ensures
            final(s).wf(),
            final(s)@.follows(old(s)@),
            match located(Construct::Element, old(s)@, grammar::close_element(old(s)@)) {
                Ok((c, t)) => r is Ok && r->Ok_0@ == t && final(s)@ == c,
                Err(e) => r is Err && r->Err_0@ == e,
            },
            // The token covers what was read and has the shape of its kind.
            r is Ok ==> {
                &&& placed(r->Ok_0@, old(s)@, final(s)@)
                &&& r->Ok_0@.span().start == old(s)@.pos
                &&& r->Ok_0@.lies_in(old(s)@.bytes)
                &&& shaped(r->Ok_0@, old(s)@.bytes)
            },
    {
        proof {
            crate::soundness::lemma_close_element(s@);
        }
        let start = s.pos();
        match Self::parse_close_element_impl(s) {
            Ok(t) => Ok(t),
            Err(e) => Err(Error::InvalidElement(e, s.gen_text_pos_from(start))),
        }
    }

    // '</' Name S? '>'
    pub(crate) fn parse_close_element_impl(s: &mut Stream<'a>) -> (r: Result<Token<'a>, StreamError>)
        requires
            old(s).wf(),
            old(s)@.starts_with(encode_utf8("</"@)),
        ensures
            final(s).wf(),
            final(s)@.follows(old(s)@),
            match grammar::close_element(old(s)@) {
                Ok((c, t)) => r is Ok && r->Ok_0@ == t && final(s)@ == c,
                Err(e) => r is Err && r->Err_0@ == e,
            },
    {
        proof {
            reveal(grammar::close_element);
        }
        let start = s.pos();
        proof {
            reveal_strlit("</");
            lemma_starts_with_ascii(s@, "</"@);
        }
        s.advance(2);
        let (prefix, tag_name) = s.consume_qname()?;
        s.skip_spaces();
        s.consume_byte(0x3E)?;
        let span = s.slice_back(start);
        Ok(Token::ElementEnd { end: ElementEnd::Close(prefix, tag_name), span })
    }

    /// Reads what follows the name of an element or an attribute.
    // S? ('/>' | '>') | S Name Eq AttValue
    pub(crate) fn parse_attribute(s: &mut Stream<'a>) -> (r: Result<Token<'a>, StreamError>)
        requires
            old(s).wf(),
        ensures
            final(s).wf(),
            final(s)@.follows(old(s)@),
            match grammar::attribute(old(s)@) {
                Ok((c, t)) => r is Ok && r->Ok_0@ == t && final(s)@ == c,
                Err(e) => r is Err && r->Err_0@ == e,
            },
            // The token is an attribute or the end of the start tag; it
            // starts behind the white space, covers what was read from
            // there on and has the shape of its kind.
            r is Ok ==> {
                &&& r->Ok_0@ is Attribute || (r->Ok_0@ matches Lexeme::ElementEnd { end, .. }
                    && !(end is Close))
                &&& placed(r->Ok_0@, old(s)@, final(s)@)
                &&& r->Ok_0@.span().start == old(s)@.skip_spaces().pos
                &&& r->Ok_0@.lies_in(old(s)@.bytes)
                &&& shaped(r->Ok_0@, old(s)@.bytes)
            },
    {
        proof {
            reveal(grammar::attribute);
            crate::soundness::lemma_attribute(s@);
        }
        let attr_start = s.pos();
        let has_space = s.starts_with_space();
        s.skip_spaces();
        if let Ok(c) = s.curr_byte() {
            let start = s.pos();
            if c == 0x2F {
                proof {
                    crate::encoding::lemma_ascii_boundary(s@.bytes, s@.pos);
                }
                s.advance(1);
                s.consume_byte(0x3E)?;
                let span = s.slice_back(start);
                return Ok(Token::ElementEnd { end: ElementEnd::Empty, span });
            } else if c == 0x3E {
                proof {
                    crate::encoding::lemma_ascii_boundary(s@.bytes, s@.pos);
                }
                s.advance(1);
                let span = s.slice_back(start);
                return Ok(Token::ElementEnd { end: ElementEnd::Open, span });
            }
        }
        if !has_space {
            if !s.at_end() {
                return Err(
                    StreamError::InvalidSpace(
                        s.curr_byte_unchecked(),
                        s.gen_text_pos_from(attr_start),
                    ),
                );
            } else {
                return Err(StreamError::UnexpectedEndOfStream);
            }
        }
        let start = s.pos();
        let (prefix, local) = s.consume_qname()?;
        s.consume_eq()?;
        let quote = s.consume_quote()?;
        let quote_c = quote as char;
        // The attribute value must not contain the < character.
        let f = |_t: &Stream, c: char| -> (r: bool)
            ensures
                r == attribute_value_chars(quote)(_t@, c),
            { c != quote_c && c != '<' };
        let value = s.consume_chars_by(f, Ghost(attribute_value_chars(quote)))?;
        s.consume_byte(quote)?;
        let span = s.slice_back(start);
        Ok(Token::Attribute { prefix, local, value, span })
    }

    /// Reads character data.
    pub(crate) fn parse_text(s: &mut Stream<'a>) -> (r: Result<Token<'a>, Error>)
        requires
            old(s).wf(),
        ensures
            final(s).wf(),
            final(s)@.follows(old(s)@),
            match located(Construct::CharData, old(s)@, grammar::text(old(s)@)) {
                Ok((c, t)) => r is Ok && r->Ok_0@ == t && final(s)@ == c,
                Err(e) => r is Err && r->Err_0@ == e,
            },
            // The text is the run of characters from the position up to the
            // next `<`, or to the end of the stream. A character that is no XML
            // character fails as the stream says, a run with `]]>` fails with
            // `InvalidCharacterData`; each fault stands at the start of the run.
            match old(s)@.consume_chars(text_chars()) {
                Err(e) => r is Err && r->Err_0@ == Fault::InvalidCharData(
                    e,
                    old(s)@.text_pos_from(old(s)@.pos),
                ),
                Ok((c1, run)) => if occurs(run.bytes, encode_utf8("]]>"@)) {
                    r is Err && r->Err_0@ == Fault::InvalidCharData(
                        StreamFault::InvalidCharacterData,
                        old(s)@.text_pos_from(old(s)@.pos),
                    )
                } else {
                    &&& r is Ok
                    &&& final(s)@ == c1
                    &&& r->Ok_0@ == (Lexeme::Text { text: run })
                    &&& run == crate::strspan::Slice::of(old(s)@.bytes, old(s)@.pos, c1.pos)
                },
            },
            // Where something other than `<` stands at the position, the
            // text is not empty; it holds neither `<` nor `]]>`.
            r is Ok && !old(s)@.at_end() && old(s)@.curr() != 0x3C ==> {
                &&& placed(r->Ok_0@, old(s)@, final(s)@)
                &&& r->Ok_0@.lies_in(old(s)@.bytes)
                &&& shaped(r->Ok_0@, old(s)@.bytes)
                &&& clean(r->Ok_0@)
            },
    {
        proof {
            reveal(grammar::text);
            s@.lemma_consume_chars(text_chars());
            if !s@.at_end() && s@.curr() != 0x3C {
                lemma_text(s@);
            }
        }
        let start = s.pos();
        match Self::parse_text_impl(s) {
            Ok(t) => Ok(t),
            Err(e) => Err(Error::InvalidCharData(e, s.gen_text_pos_from(start))),
        }
    }

    pub(crate) fn parse_text_impl(s: &mut Stream<'a>) -> (r: Result<Token<'a>, StreamError>)
        requires
            old(s).wf(),
        ensures
            final(s).wf(),
            final(s)@.follows(old(s)@),
            match grammar::text(old(s)@) {
                Ok((c, t)) => r is Ok && r->Ok_0@ == t && final(s)@ == c,
                Err(e) => r is Err && r->Err_0@ == e,
            },
    {
        proof {
            reveal(grammar::text);
        }
        let f = |_t: &Stream, c: char| -> (r: bool)
            ensures
                r == text_chars()(_t@, c),
            { c != '<' };
        let text = s.consume_chars_by(f, Ghost(text_chars()))?;
        // `]]>` must not appear inside a Text node.
        if contains_bytes(text.as_str().as_bytes(), "]]>".as_bytes()) {
            return Err(StreamError::InvalidCharacterData);
        }
        Ok(Token::Text { text })
    }
}

/// What a state has made of the stream: a result, or the request to look again.
enum Step<'a> {
    Done(Option<Result<Token<'a>, Error>>),
    Again,
}

/// What the results of a run of pulls stand for.
pub open spec fn pulls_of(v: Seq<Result<Token, Error>>) -> Seq<Result<Lexeme, Fault>> {
    Seq::new(
        v.len(),
        |i: int|
            match v[i] {
                Ok(t) => Ok(t@),
                Err(e) => Err(e@),
            },
    )
}

/// What a pull of the tokenizer stands for.
pub open spec fn pull_of(r: Option<Result<Token, Error>>) -> Pull {
    match r {
        Some(Ok(t)) => Some(Ok(t@)),
        Some(Err(e)) => Some(Err(e@)),
        None => None,
    }
}

impl<'a> From<&'a str> for Tokenizer<'a> {
    #[inline]
    fn from(text: &'a str) -> (r: Self)
        ensures
            r.wf(),
            r@ == Machine::start(text.spec_bytes()),
    {
        let mut stream = Stream::from(text);
        // Skip UTF-8 BOM.
        let bom: [u8; 3] = [0xEF, 0xBB, 0xBF];
        assert(bom@ =~= seq![0xEFu8, 0xBBu8, 0xBFu8]);
        if stream.starts_with(bom.as_slice()) {
            proof {
                let bytes = stream@.bytes;
                assert(bytes.subrange(0, 3)[0] == 0xEF);
                crate::encoding::lemma_char_at(bytes, 0);
            }
            stream.advance(3);
        }
        Tokenizer { stream, state: State::Declaration, depth: 0, fragment_parsing: false }
    }
}

impl<'a> vstd::std_specs::convert::FromSpecImpl<&'a str> for Tokenizer<'a> {
    open spec fn obeys_from_spec() -> bool {
        true
    }

    open spec fn from_spec(text: &'a str) -> Self {
        Tokenizer::over(text)
    }
}

impl<'a> Tokenizer<'a> {
    /// The stream is within its text, and so is the count of open elements.
    pub open spec fn wf(&self) -> bool {
        self@.wf()
    }

    /// The tokenizer over the whole of `text`.
    pub closed spec fn over(text: &'a str) -> Self {
        let stream = Stream::over(StrSpan::of_text(text));
        Tokenizer {
            stream: if stream@.starts_with(seq![0xEFu8, 0xBBu8, 0xBFu8]) {
                stream.at(3)
            } else {
                stream
            },
            state: State::Declaration,
            depth: 0,
            fragment_parsing: false,
        }
    }

    /// Enables document fragment parsing.
    ///
    /// By default, the tokenizer will check for DTD, root element, etc.
    /// But if we have to parse an XML fragment, it will lead to an error.
    /// This method switches the parser to the root element content parsing mode,
    /// so it will treat any data as a content of the root element.
    ///
    /// The fragment lies within the text, and a character starts at both its ends.
    pub fn from_fragment(full_text: &'a str, fragment: Range<usize>) -> (r: Self)
        requires
            fragment.start <= fragment.end <= full_text.spec_bytes().len(),
            is_boundary(full_text.spec_bytes(), fragment.start as int),
            is_boundary(full_text.spec_bytes(), fragment.end as int),
        ensures
            r.wf(),
            r@ == Machine::start_fragment(
                full_text.spec_bytes(),
                fragment.start as int,
                fragment.end as int,
            ),
    {
        Tokenizer {
            stream: Stream::from_substr(full_text, fragment),
            state: State::Elements,
            depth: 0,
            fragment_parsing: true,
        }
    }

    /// Returns the underlying stream.
    pub fn stream(&self) -> (r: Stream<'a>)
        ensures
            r@ == self@.stream,
    {
        self.stream
    }

    /// The error for a position at which nothing stands that the state allows.
    fn unknown_token(&self) -> (r: Option<Result<Token<'a>, Error>>)
        requires
            self.wf(),
        ensures
            pull_of(r) == Some::<Result<Lexeme, Fault>>(
                Err(Fault::UnknownToken(self@.stream.text_pos())),
            ),
    {
        Some(Err(Error::UnknownToken(self.stream.gen_text_pos())))
    }

    /// A processing instruction, unless it is an XML declaration out of place.
    fn parse_instruction(&mut self) -> (r: Option<Result<Token<'a>, Error>>)
        requires
            old(self).wf(),
            old(self)@.stream.starts_with(encode_utf8("<?"@)),
        ensures
            final(self).wf(),
            old(self).done(old(self)@.instruction(), final(self), r),
    {
        if self.stream.starts_with("<?xml ".as_bytes()) {
            self.unknown_token()
        } else {
            Some(Self::parse_pi(&mut self.stream))
        }
    }

    /// The tokenizer `after` and the result `r` are what `step` says, up to
    /// where the stream stands behind a fault.
    pub(crate) open spec fn done(
        &self,
        step: Move,
        after: &Self,
        r: Option<Result<Token<'a>, Error>>,
    ) -> bool {
        match step {
            Move::Done(m, pull) => {
                &&& pull_of(r) == pull
                &&& if pull is Some && pull->0 is Err {
                    after@.halt() == m.halt()
                } else {
                    after@ == m
                }
            },
            Move::Again(_) => false,
        }
    }

    /// The tokenizer `after` and the step `r` are what `step` says.
    spec fn moved(&self, step: Move, after: &Self, r: Step<'a>) -> bool {
        match step {
            Move::Done(_, _) => r is Done && self.done(step, after, r->Done_0),
            Move::Again(m) => r is Again && after@ == m,
        }
    }

    /// At the start of the text.
    fn in_declaration(&mut self) -> (r: Step<'a>)
        requires
            old(self).wf(),
            !old(self)@.stream.at_end(),
        ensures
            final(self).wf(),
            old(self).moved(old(self)@.in_declaration(), final(self), r),
    {
        self.state = State::AfterDeclaration;
        if self.stream.starts_with("<?xml ".as_bytes()) {
            Step::Done(Some(Self::parse_declaration(&mut self.stream)))
        } else {
            Step::Again
        }
    }

    /// Behind the XML declaration.
    fn in_after_declaration(&mut self) -> (r: Step<'a>)
        requires
            old(self).wf(),
            !old(self)@.stream.at_end(),
        ensures
            final(self).wf(),
            old(self).moved(old(self)@.in_after_declaration(), final(self), r),
    {
        if self.stream.starts_with("<!DOCTYPE".as_bytes()) {
            let t = Self::parse_doctype(&mut self.stream);
            match t {
                Ok(Token::DtdStart { .. }) => self.state = State::Dtd,
                Ok(Token::EmptyDtd { .. }) => self.state = State::AfterDtd,
                _ => {},
            }
            Step::Done(Some(t))
        } else if self.stream.starts_with("<!--".as_bytes()) {
            Step::Done(Some(Self::parse_comment(&mut self.stream)))
        } else if self.stream.starts_with("<?".as_bytes()) {
            Step::Done(self.parse_instruction())
        } else if self.stream.starts_with_space() {
            self.stream.skip_spaces();
            Step::Again
        } else {
            self.state = State::AfterDtd;
            Step::Again
        }
    }

    /// The end of the internal subset: `]`, which stands at the position,
    /// optional white space and `>`.
    fn parse_dtd_end(&mut self) -> (r: Result<Token<'a>, Error>)
        requires
            old(self).wf(),
            old(self)@.stream.starts_with(encode_utf8("]"@)),
        ensures
            final(self).wf(),
            old(self).done(old(self)@.dtd_end(), final(self), Some(r)),
    {
        let start = self.stream.pos();
        // DTD ends with ']' S? '>', therefore we have to skip possible spaces.
        proof {
            reveal_strlit("]");
            lemma_starts_with_ascii(self.stream@, "]"@);
        }
        self.stream.advance(1);
        self.stream.skip_spaces();
        match self.stream.curr_byte() {
            Ok(c) => {
                if c == 0x3E {
                    self.state = State::AfterDtd;
                    proof {
                        crate::encoding::lemma_ascii_boundary(self.stream@.bytes, self.stream@.pos);
                    }
                    self.stream.advance(1);
                    Ok(Token::DtdEnd { span: self.stream.slice_back(start) })
                } else {
                    let e = StreamError::InvalidChar(c, 0x3E, self.stream.gen_text_pos());
                    Err(Error::InvalidDoctype(e, self.stream.gen_text_pos_from(start)))
                }
            },
            Err(_) => {
                let e = StreamError::UnexpectedEndOfStream;
                Err(Error::InvalidDoctype(e, self.stream.gen_text_pos_from(start)))
            },
        }
    }

    /// In the internal subset of the document type declaration.
    fn in_dtd(&mut self) -> (r: Step<'a>)
        requires
            old(self).wf(),
            !old(self)@.stream.at_end(),
        ensures
            final(self).wf(),
            old(self).moved(old(self)@.in_dtd(), final(self), r),
    {
        let start = self.stream.pos();
        if self.stream.starts_with("<!ENTITY".as_bytes()) {
            Step::Done(Some(Self::parse_entity_decl(&mut self.stream)))
        } else if self.stream.starts_with("<!--".as_bytes()) {
            Step::Done(Some(Self::parse_comment(&mut self.stream)))
        } else if self.stream.starts_with("<?".as_bytes()) {
            Step::Done(self.parse_instruction())
        } else if self.stream.starts_with("]".as_bytes()) {
            Step::Done(Some(self.parse_dtd_end()))
        } else if self.stream.starts_with_space() {
            self.stream.skip_spaces();
            Step::Again
        } else if self.stream.starts_with("<!ELEMENT".as_bytes()) || self.stream.starts_with(
            "<!ATTLIST".as_bytes(),
        ) || self.stream.starts_with("<!NOTATION".as_bytes()) {
            if Self::consume_decl(&mut self.stream).is_err() {
                let pos = self.stream.gen_text_pos_from(start);
                Step::Done(Some(Err(Error::UnknownToken(pos))))
            } else {
                Step::Again
            }
        } else {
            Step::Done(self.unknown_token())
        }
    }

    /// Before the root element.
    fn in_after_dtd(&mut self) -> (r: Step<'a>)
        requires
            old(self).wf(),
            !old(self)@.stream.at_end(),
        ensures
            final(self).wf(),
            old(self).moved(old(self)@.in_after_dtd(), final(self), r),
    {
        if self.stream.starts_with("<!--".as_bytes()) {
            Step::Done(Some(Self::parse_comment(&mut self.stream)))
        } else if self.stream.starts_with("<?".as_bytes()) {
            Step::Done(self.parse_instruction())
        } else if self.stream.starts_with("<!".as_bytes()) {
            Step::Done(self.unknown_token())
        } else if self.stream.starts_with("<".as_bytes()) {
            self.state = State::Attributes;
            Step::Done(Some(Self::parse_element_start(&mut self.stream)))
        } else if self.stream.starts_with_space() {
            self.stream.skip_spaces();
            Step::Again
        } else {
            Step::Done(self.unknown_token())
        }
    }

    /// In the content of an element.
    fn in_elements(&mut self) -> (r: Step<'a>)
        requires
            old(self).wf(),
            !old(self)@.stream.at_end(),
        ensures
            final(self).wf(),
            old(self).moved(old(self)@.in_elements(), final(self), r),
    {
        let c = self.stream.curr_byte_unchecked();
        if c != 0x3C {
            return Step::Done(Some(Self::parse_text(&mut self.stream)));
        }
        proof {
            lemma_markup(self.stream@);
        }
        let r = match self.stream.next_byte() {
            Ok(b) => {
                if b == 0x21 {
                    if self.stream.starts_with("<!--".as_bytes()) {
                        Some(Self::parse_comment(&mut self.stream))
                    } else if self.stream.starts_with("<![CDATA[".as_bytes()) {
                        Some(Self::parse_cdata(&mut self.stream))
                    } else {
                        self.unknown_token()
                    }
                } else if b == 0x3F {
                    self.parse_instruction()
                } else if b == 0x2F {
                    if self.depth > 0 {
                        self.depth -= 1;
                    }
                    if self.depth == 0 && !self.fragment_parsing {
                        self.state = State::AfterElements;
                    } else {
                        self.state = State::Elements;
                    }
                    Some(Self::parse_close_element(&mut self.stream))
                } else {
                    self.state = State::Attributes;
                    Some(Self::parse_element_start(&mut self.stream))
                }
            },
            Err(_) => self.unknown_token(),
        };
        Step::Done(r)
    }

    /// Behind the name of an element or an attribute.
    fn in_attributes(&mut self) -> (r: Step<'a>)
        requires
            old(self).wf(),
            !old(self)@.stream.at_end(),
        ensures
            final(self).wf(),
            old(self).moved(old(self)@.in_attributes(), final(self), r),
    {
        let start = self.stream.pos();
        let t = Self::parse_attribute(&mut self.stream);
        proof {
            crate::soundness::lemma_attribute(old(self)@.stream);
        }
        if let Ok(Token::ElementEnd { end, .. }) = t {
            if let ElementEnd::Open = end {
                // Each open element has left its `>` behind.
                let pos = self.stream.pos();
                assert(self.depth < pos);
                self.depth += 1;
            }
            if self.depth == 0 && !self.fragment_parsing {
                self.state = State::AfterElements;
            } else {
                self.state = State::Elements;
            }
        }
        match t {
            Ok(t) => Step::Done(Some(Ok(t))),
            Err(e) => Step::Done(
                Some(Err(Error::InvalidAttribute(e, self.stream.gen_text_pos_from(start)))),
            ),
        }
    }

    /// Behind the root element.
    fn in_after_elements(&mut self) -> (r: Step<'a>)
        requires
            old(self).wf(),
            !old(self)@.stream.at_end(),
        ensures
            final(self).wf(),
            old(self).moved(old(self)@.in_after_elements(), final(self), r),
    {
        if self.stream.starts_with("<!--".as_bytes()) {
            Step::Done(Some(Self::parse_comment(&mut self.stream)))
        } else if self.stream.starts_with("<?".as_bytes()) {
            Step::Done(self.parse_instruction())
        } else if self.stream.starts_with_space() {
            self.stream.skip_spaces();
            Step::Again
        } else {
            Step::Done(self.unknown_token())
        }
    }

    /// Looks for the next construct: asks the state until it is done.
    pub(crate) fn parse_next_impl(&mut self) -> (r: Option<Result<Token<'a>, Error>>)
        requires
            old(self).wf(),
        ensures
            final(self).wf(),
            old(self).done(
                Move::Done(old(self)@.parse_next().0, old(self)@.parse_next().1),
                final(self),
                r,
            ),
            // A token covers what was read and has the shape of its kind. The
            // count of open elements is one more behind `>`, one less behind
            // a closing tag unless it was zero, and else the same; it is never
            // more than the position of the stream.
            match r {
                Some(Ok(t)) => {
                    &&& placed(t@, old(self)@.stream, final(self)@.stream)
                    &&& t@.lies_in(old(self)@.stream.bytes)
                    &&& shaped(t@, old(self)@.stream.bytes)
                    &&& clean(t@)
                    &&& final(self)@.depth == depth_after(old(self)@.depth, t@)
                },
                Some(Err(_)) => true,
                None => final(self)@.depth == old(self)@.depth,
            },
            final(self)@.depth <= final(self)@.stream.pos,
        decreases old(self)@.stream.remaining(), old(self)@.state.rank(),
    {
        proof {
            if old(self)@.state != State::End {
                lemma_parse_next(old(self)@);
            }
        }
        if self.stream.at_end() {
            return None;
        }
        proof {
            if old(self)@.dispatch() is Again {
                old(self)@.lemma_again();
            }
        }
        let step = match self.state {
            State::Declaration => self.in_declaration(),
            State::AfterDeclaration => self.in_after_declaration(),
            State::Dtd => self.in_dtd(),
            State::AfterDtd => self.in_after_dtd(),
            State::Elements => self.in_elements(),
            State::Attributes => self.in_attributes(),
            State::AfterElements => self.in_after_elements(),
            State::End => Step::Done(None),
        };
        match step {
            Step::Done(r) => r,
            Step::Again => self.parse_next_impl(),
        }
    }

    /// Pulls until nothing is left to read: returns the tokens in the order
    /// of the text and, last, the error that ended the reading, if there was one.
    pub fn collect(self) -> (r: Vec<Result<Token<'a>, Error>>)
        requires
            self.wf(),
        ensures
            pulls_of(r@) == crate::laws::all_pulls(self@),
    {
        let mut p = self;
        let mut out: Vec<Result<Token<'a>, Error>> = Vec::new();
        assert(pulls_of(out@) =~= Seq::empty());
        loop
            invariant
                p.wf(),
                pulls_of(out@) + crate::laws::all_pulls(p@) == crate::laws::all_pulls(self@),
            ensures
                pulls_of(out@) == crate::laws::all_pulls(self@),
            decreases p@.stream.remaining(),
        {
            let ghost before = p@;
            let ghost done = out@;
            proof {
                crate::laws::lemma_next(before);
            }
            match p.next() {
                Some(t) => {
                    out.push(t);
                    proof {
                        let r = before.next().1->0;
                        assert(pulls_of(out@) =~= pulls_of(done) + seq![r]);
                        assert(pulls_of(done) + (seq![r] + crate::laws::all_pulls(p@)) =~= (
                        pulls_of(done) + seq![r]) + crate::laws::all_pulls(p@));
                    }
                },
                None => {
                    assert(pulls_of(out@) + Seq::empty() =~= pulls_of(out@));
                    break;
                },
            }
        }
        out
    }

    /// Returns the next token, or the error that ends the reading, or
    /// `None` where nothing is left to read.
    #[inline]
    pub fn next(&mut self) -> (r: Option<Result<Token<'a>, Error>>)
        requires
            old(self).wf(),
        ensures
            final(self).wf(),
            (final(self)@, pull_of(r)) == old(self)@.next(),
            // The text stays, and the stream does not go back.
            final(self)@.stream.follows(old(self)@.stream),
            final(self)@.fragment == old(self)@.fragment,
            match r {
                // A token covers what was read: its span is not empty, starts
                // at or behind the old position and ends at the new one. Its
                // parts are parts of the text, it has the shape of its kind,
                // a text holds no `]]>`, a comment holds no `--` and does not
                // end with `-`. The count of open elements is one more behind
                // `>`, one less behind a closing tag unless it was zero, and
                // else the same.
                Some(Ok(t)) => {
                    &&& final(self)@.state != State::End
                    &&& placed(t@, old(self)@.stream, final(self)@.stream)
                    &&& t@.lies_in(old(self)@.stream.bytes)
                    &&& shaped(t@, old(self)@.stream.bytes)
                    &&& clean(t@)
                    &&& final(self)@.depth == depth_after(old(self)@.depth, t@)
                },
                // Behind an error nothing more is read.
                Some(Err(_)) => final(self)@.state == State::End && final(self)@.stream.at_end(),
                // Nothing is left to read, now and at every later pull.
                None => {
                    &&& final(self)@.stream.at_end() || final(self)@.state == State::End
                    &&& final(self)@.next() == (final(self)@, None::<Result<Lexeme, Fault>>)
                },
            },
            // Every pull that yields something leaves less to read.
            r is Some ==> final(self)@.stream.remaining() < old(self)@.stream.remaining(),
    {
        proof {
            lemma_next(old(self)@);
        }
        if self.stream.at_end() || self.state == State::End {
            return None;
        }
        let t = self.parse_next_impl();
        if let Some(Err(_)) = t {
            self.stream.jump_to_end();
            self.state = State::End;
        }
        t
    }
}

} // verus!
