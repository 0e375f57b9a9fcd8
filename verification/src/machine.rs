//! The tokenizer as a state machine over the stream: which construct each
//! state looks for, what it emits and which state follows.

use vstd::prelude::*;
use vstd::utf8::*;
use crate::cursor::{space_bytes, Cursor};
use crate::error::{Fault, StreamFault};
use crate::grammar::{
    attribute,
    cdata,
    close_element,
    comment,
    declaration,
    doctype,
    element_start,
    entity_decl,
    fault,
    processing_instruction,
    skipped_decl,
    text,
    Construct,
    Parsed,
};
use crate::token::{Ending, Lexeme};

verus! {

/// The states of the tokenizer.
#[derive(Clone, Copy, PartialEq, Eq, Debug, Structural)]
pub enum State {
    /// At the start: an XML declaration may come.
    Declaration,
    /// Before the document type declaration.
    AfterDeclaration,
    /// Inside the internal subset of the document type declaration.
    Dtd,
    /// Before the root element.
    AfterDtd,
    /// Inside an element.
    Elements,
    /// Behind the name of an element or behind an attribute.
    Attributes,
    /// Behind the root element.
    AfterElements,
    /// Behind an error: nothing more is read.
    End,
}

impl State {
    /// How many times the state can be left without reading anything.
    pub open spec fn rank(self) -> nat {
        match self {
            State::Declaration => 2,
            State::AfterDeclaration => 1,
            _ => 0,
        }
    }
}

/// What a pull yields: a token, a fault, or nothing more.
pub type Pull = Option<Result<Lexeme, Fault>>;

/// What a state makes of the stream: a result, or another state or
/// position from which to look again.
pub enum Move {
    Done(Machine, Pull),
    Again(Machine),
}

/// A tokenizer: its stream, its state, the number of elements that are
/// open, and whether it reads a fragment.
pub struct Machine {
    pub stream: Cursor,
    pub state: State,
    pub depth: nat,
    pub fragment: bool,
}

impl Machine {
    /// The stream is well-formed; each open element has left a `>` behind, so
    /// the depth is at most the position; the state `End` is at the end.
    pub open spec fn wf(self) -> bool {
        &&& self.stream.wf()
        &&& self.depth <= self.stream.pos
        &&& self.state == State::End ==> self.stream.at_end()
    }

    /// The tokenizer over the text `bytes`: behind a byte order mark if the
    /// text starts with one, in the state `Declaration`.
    pub open spec fn start(bytes: Seq<u8>) -> Machine {
        let c = Cursor { bytes, origin: 0, pos: 0, end: bytes.len() as int };
        Machine {
            stream: if c.starts_with(seq![0xEFu8, 0xBBu8, 0xBFu8]) {
                c.advance(3)
            } else {
                c
            },
            state: State::Declaration,
            depth: 0,
            fragment: false,
        }
    }

    /// The tokenizer over the part of `bytes` from `start` to `end`, read as
    /// the content of an element.
    pub open spec fn start_fragment(bytes: Seq<u8>, start: int, end: int) -> Machine {
        Machine {
            stream: Cursor { bytes, origin: 0, pos: start, end },
            state: State::Elements,
            depth: 0,
            fragment: true,
        }
    }

    /// The machine behind an error: at the end of the stream, in the state `End`.
    pub open spec fn halt(self) -> Machine {
        Machine { stream: self.stream.at(self.stream.end), state: State::End, ..self }
    }

    /// The state inside or behind elements: behind the root element once no
    /// element is open, unless a fragment is read.
    pub open spec fn content_state(self) -> State {
        if self.depth == 0 && !self.fragment {
            State::AfterElements
        } else {
            State::Elements
        }
    }

    /// Nothing that the state allows stands at the position.
    pub open spec fn unknown(self) -> Move {
        Move::Done(self, Some(Err(Fault::UnknownToken(self.stream.text_pos()))))
    }

    /// The construct of kind `kind` was read as `parsed`; with a token the
    /// machine goes behind it.
    pub open spec fn emit(self, kind: Construct, parsed: Parsed<Lexeme>) -> Move {
        match parsed {
            Ok((c, token)) => Move::Done(Machine { stream: c, ..self }, Some(Ok(token))),
            Err(e) => Move::Done(
                self,
                Some(Err(fault(kind, e, self.stream.text_pos_from(self.stream.pos)))),
            ),
        }
    }

    /// `<?` at the position: a processing instruction, unless it is `<?xml`
    /// and a space, which is allowed at the start only.
    pub open spec fn instruction(self) -> Move {
        if self.stream.starts_with(encode_utf8("<?xml "@)) {
            self.unknown()
        } else {
            self.emit(Construct::ProcessingInstruction, processing_instruction(self.stream))
        }
    }

    /// White space at the position is skipped.
    pub open spec fn skip_spaces(self) -> Move {
        Move::Again(Machine { stream: self.stream.skip_spaces(), ..self })
    }

    /// At the start of the text: an XML declaration, or else whatever may
    /// stand behind one.
    pub open spec fn in_declaration(self) -> Move {
        let m = Machine { state: State::AfterDeclaration, ..self };
        if self.stream.starts_with(encode_utf8("<?xml "@)) {
            m.emit(Construct::Declaration, declaration(self.stream))
        } else {
            Move::Again(m)
        }
    }

    /// Behind the XML declaration: a document type declaration, a comment, a
    /// processing instruction or white space; anything else is left to the
    /// state behind the document type declaration.
    pub open spec fn in_after_declaration(self) -> Move {
        let c = self.stream;
        if c.starts_with(encode_utf8("<!DOCTYPE"@)) {
            let parsed = doctype(c);
            let m = match parsed {
                Ok((_, Lexeme::DtdStart { .. })) => Machine { state: State::Dtd, ..self },
                Ok((_, Lexeme::EmptyDtd { .. })) => Machine { state: State::AfterDtd, ..self },
                _ => self,
            };
            m.emit(Construct::Doctype, parsed)
        } else if c.starts_with(encode_utf8("<!--"@)) {
            self.emit(Construct::Comment, comment(c))
        } else if c.starts_with(encode_utf8("<?"@)) {
            self.instruction()
        } else if c.starts_with_space() {
            self.skip_spaces()
        } else {
            Move::Again(Machine { state: State::AfterDtd, ..self })
        }
    }

    /// The end of the internal subset: `']' S? '>'`.
    pub open spec fn dtd_end(self) -> Move {
        let c = self.stream;
        let c1 = c.advance(1).skip_spaces();
        if c1.at_end() {
            Move::Done(
                self,
                Some(
                    Err(
                        Fault::InvalidDoctype(
                            StreamFault::UnexpectedEndOfStream,
                            c.text_pos_from(c.pos),
                        ),
                    ),
                ),
            )
        } else if c1.curr() == 0x3E {
            let c2 = c1.advance(1);
            Move::Done(
                Machine { stream: c2, state: State::AfterDtd, ..self },
                Some(Ok(Lexeme::DtdEnd { span: c2.slice_back(c.pos) })),
            )
        } else {
            Move::Done(
                self,
                Some(
                    Err(
                        Fault::InvalidDoctype(
                            StreamFault::InvalidChar(c1.curr(), 0x3E, c1.text_pos()),
                            c.text_pos_from(c.pos),
                        ),
                    ),
                ),
            )
        }
    }

    /// In the internal subset: an entity declaration, a comment, a processing
    /// instruction, white space, the end of the subset, or a declaration
    /// that is skipped.
    pub open spec fn in_dtd(self) -> Move {
        let c = self.stream;
        if c.starts_with(encode_utf8("<!ENTITY"@)) {
            self.emit(Construct::Entity, entity_decl(c))
        } else if c.starts_with(encode_utf8("<!--"@)) {
            self.emit(Construct::Comment, comment(c))
        } else if c.starts_with(encode_utf8("<?"@)) {
            self.instruction()
        } else if c.starts_with(encode_utf8("]"@)) {
            self.dtd_end()
        } else if c.starts_with_space() {
            self.skip_spaces()
        } else if c.starts_with(encode_utf8("<!ELEMENT"@)) || c.starts_with(
            encode_utf8("<!ATTLIST"@),
        ) || c.starts_with(encode_utf8("<!NOTATION"@)) {
            match skipped_decl(c) {
                Ok(c1) => Move::Again(self.at(c1)),
                Err(_) => Move::Done(
                    self,
                    Some(Err(Fault::UnknownToken(c.text_pos_from(c.pos)))),
                ),
            }
        } else {
            self.unknown()
        }
    }

    /// Before the root element: a comment, a processing instruction, white
    /// space, or the start of the root element.
    pub open spec fn in_after_dtd(self) -> Move {
        let c = self.stream;
        if c.starts_with(encode_utf8("<!--"@)) {
            self.emit(Construct::Comment, comment(c))
        } else if c.starts_with(encode_utf8("<?"@)) {
            self.instruction()
        } else if c.starts_with(encode_utf8("<!"@)) {
            self.unknown()
        } else if c.starts_with(encode_utf8("<"@)) {
            Machine { state: State::Attributes, ..self }.emit(Construct::Element, element_start(c))
        } else if c.starts_with_space() {
            self.skip_spaces()
        } else {
            self.unknown()
        }
    }

    /// In the content of an element: markup where `<` stands, else text.
    /// A closing tag takes one from the count of open elements, unless it is zero.
    pub open spec fn in_elements(self) -> Move {
        let c = self.stream;
        if c.curr() != 0x3C {
            self.emit(Construct::CharData, text(c))
        } else {
            match c.next_byte() {
                Err(_) => self.unknown(),
                Ok(b) => if b == 0x21 {
                    if c.starts_with(encode_utf8("<!--"@)) {
                        self.emit(Construct::Comment, comment(c))
                    } else if c.starts_with(encode_utf8("<![CDATA["@)) {
                        self.emit(Construct::Cdata, cdata(c))
                    } else {
                        self.unknown()
                    }
                } else if b == 0x3F {
                    self.instruction()
                } else if b == 0x2F {
                    let closed = Machine {
                        depth: if self.depth > 0 {
                            (self.depth - 1) as nat
                        } else {
                            0
                        },
                        ..self
                    };
                    Machine { state: closed.content_state(), ..closed }.emit(
                        Construct::Element,
                        close_element(c),
                    )
                } else {
                    Machine { state: State::Attributes, ..self }.emit(
                        Construct::Element,
                        element_start(c),
                    )
                },
            }
        }
    }

    /// Behind the name of an element or an attribute: an attribute or the
    /// end of the start tag. `>` adds one to the count of open elements.
    pub open spec fn in_attributes(self) -> Move {
        let parsed = attribute(self.stream);
        let m = match parsed {
            Ok((_, Lexeme::ElementEnd { end, .. })) => {
                let opened = Machine {
                    depth: if end == Ending::Open {
                        self.depth + 1
                    } else {
                        self.depth
                    },
                    ..self
                };
                Machine { state: opened.content_state(), ..opened }
            },
            _ => self,
        };
        m.emit(Construct::Attribute, parsed)
    }

    /// Behind the root element: a comment, a processing instruction or white space.
    pub open spec fn in_after_elements(self) -> Move {
        let c = self.stream;
        if c.starts_with(encode_utf8("<!--"@)) {
            self.emit(Construct::Comment, comment(c))
        } else if c.starts_with(encode_utf8("<?"@)) {
            self.instruction()
        } else if c.starts_with_space() {
            self.skip_spaces()
        } else {
            self.unknown()
        }
    }

    /// The machine with its stream at `c`.
    pub open spec fn at(self, c: Cursor) -> Machine {
        Machine { stream: c, ..self }
    }

    /// What the state makes of a stream that is not at its end.
    pub open spec fn dispatch(self) -> Move {
        match self.state {
            State::Declaration => self.in_declaration(),
            State::AfterDeclaration => self.in_after_declaration(),
            State::Dtd => self.in_dtd(),
            State::AfterDtd => self.in_after_dtd(),
            State::Elements => self.in_elements(),
            State::Attributes => self.in_attributes(),
            State::AfterElements => self.in_after_elements(),
            State::End => Move::Done(self, None),
        }
    }

    /// To look again is to have read something or to have left a state
    /// that is not entered again.
    pub proof fn lemma_again(self)
        requires
            !self.stream.at_end(),
            self.dispatch() is Again,
        ensures
            ({
                let m = self.dispatch()->Again_0;
                m.stream.remaining() < self.stream.remaining() || (m.stream.remaining()
                    == self.stream.remaining() && m.state.rank() < self.state.rank())
            }),
    {
        let c = self.stream;
        if c.starts_with_space() {
            c.advance(1).lemma_skip_bytes_while(space_bytes());
        }
        if self.state == State::Dtd {
            c.lemma_skip_bytes_while(crate::cursor::bytes_other_than(0x3E));
        }
    }

    /// The next token, fault or end from a machine that is looking for a
    /// construct: the result of the first state that is done.
    pub open spec fn parse_next(self) -> (Machine, Pull)
        decreases self.stream.remaining(), self.state.rank(),
    {
        if self.stream.at_end() {
            (self, None)
        } else {
            match self.dispatch() {
                Move::Done(m, pull) => (m, pull),
                Move::Again(m) => {
                    proof {
                        self.lemma_again();
                    }
                    m.parse_next()
                },
            }
        }
    }

    /// A pull: nothing at the end of the stream and in the state `End`;
    /// else the next token or fault; behind a fault the machine halts.
    pub open spec fn next(self) -> (Machine, Pull) {
        if self.stream.at_end() || self.state == State::End {
            (self, None)
        } else {
            let (m, pull) = self.parse_next();
            match pull {
                Some(Err(_)) => (m.halt(), pull),
                _ => (m, pull),
            }
        }
    }
}

} // verus!
