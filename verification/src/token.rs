//! The tokens of an XML text.

use vstd::prelude::*;
use crate::strspan::{Slice, StrSpan};

verus! {

/// An XML token.
#[allow(missing_docs)]
#[derive(Clone, Copy, PartialEq, Eq, Hash, Debug)]
pub enum Token<'a> {
    /// Declaration token.
    ///
    /// ```text
    /// <?xml version='1.0' encoding='UTF-8' standalone='yes'?>
    ///                ---                                      - version
    ///                               -----                     - encoding?
    ///                                                  ---    - standalone?
    /// ------------------------------------------------------- - span
    /// ```
    Declaration {
        version: StrSpan<'a>,
        encoding: Option<StrSpan<'a>>,
        standalone: Option<bool>,
        span: StrSpan<'a>,
    },
    /// Processing instruction token.
    ///
    /// ```text
    /// <?target content?>
    ///   ------           - target
    ///          -------   - content?
    /// ------------------ - span
    /// ```
    ProcessingInstruction { target: StrSpan<'a>, content: Option<StrSpan<'a>>, span: StrSpan<'a> },
    /// Comment token.
    ///
    /// ```text
    /// <!-- text -->
    ///     ------    - text
    /// ------------- - span
    /// ```
    Comment { text: StrSpan<'a>, span: StrSpan<'a> },
    /// DOCTYPE start token.
    ///
    /// ```text
    /// <!DOCTYPE greeting SYSTEM "hello.dtd" [
    ///           --------                      - name
    ///                    ------------------   - external_id?
    /// --------------------------------------- - span
    /// ```
    DtdStart { name: StrSpan<'a>, external_id: Option<ExternalId<'a>>, span: StrSpan<'a> },
    /// Empty DOCTYPE token.
    ///
    /// ```text
    /// <!DOCTYPE greeting SYSTEM "hello.dtd">
    ///           --------                     - name
    ///                    ------------------  - external_id?
    /// -------------------------------------- - span
    /// ```
    EmptyDtd { name: StrSpan<'a>, external_id: Option<ExternalId<'a>>, span: StrSpan<'a> },
    /// ENTITY token.
    ///
    /// Can appear only inside the DTD.
    ///
    /// ```text
    /// <!ENTITY ns_extend "http://test.com">
    ///          ---------                    - name
    ///                     ---------------   - definition
    /// ------------------------------------- - span
    /// ```
    EntityDeclaration { name: StrSpan<'a>, definition: EntityDefinition<'a>, span: StrSpan<'a> },
    /// DOCTYPE end token.
    ///
    /// ```text
    /// <!DOCTYPE svg [
    ///    ...
    /// ]>
    /// -- - span
    /// ```
    DtdEnd { span: StrSpan<'a> },
    /// Element start token.
    ///
    /// ```text
    /// <ns:elem attr="value"/>
    ///  --                     - prefix
    ///     ----                - local
    /// --------                - span
    /// ```
    ElementStart { prefix: StrSpan<'a>, local: StrSpan<'a>, span: StrSpan<'a> },
    /// Attribute token.
    ///
    /// ```text
    /// <elem ns:attr="value"/>
    ///       --              - prefix
    ///          ----         - local
    ///                -----  - value
    ///       --------------- - span
    /// ```
    Attribute { prefix: StrSpan<'a>, local: StrSpan<'a>, value: StrSpan<'a>, span: StrSpan<'a> },
    /// Element end token.
    ///
    /// ```text
    /// <ns:elem>text</ns:elem>
    ///                         - ElementEnd::Open
    ///         -               - span
    /// ```
    ///
    /// ```text
    /// <ns:elem>text</ns:elem>
    ///                -- ----  - ElementEnd::Close(prefix, local)
    ///              ---------- - span
    /// ```
    ///
    /// ```text
    /// <ns:elem/>
    ///                         - ElementEnd::Empty
    ///         --              - span
    /// ```
    ElementEnd { end: ElementEnd<'a>, span: StrSpan<'a> },
    /// Text token.
    ///
    /// Contains text between elements including whitespaces.
    /// Basically everything between `>` and `<`.
    /// Except `]]>`, which is not allowed and will lead to an error.
    ///
    /// ```text
    /// <p> text </p>
    ///    ------     - text
    /// ```
    ///
    /// The token span is equal to the `text`.
    Text { text: StrSpan<'a> },
    /// CDATA token.
    ///
    /// ```text
    /// <p><![CDATA[text]]></p>
    ///             ----        - text
    ///    ----------------     - span
    /// ```
    Cdata { text: StrSpan<'a>, span: StrSpan<'a> },
}

/// `ElementEnd` token.
#[derive(Clone, Copy, PartialEq, Eq, Hash, Debug)]
pub enum ElementEnd<'a> {
    /// Indicates `>`
    Open,
    /// Indicates `</name>`
    Close(StrSpan<'a>, StrSpan<'a>),
    /// Indicates `/>`
    Empty,
}

/// Representation of the [ExternalID](https://www.w3.org/TR/xml/#NT-ExternalID) value.
#[allow(missing_docs)]
#[derive(Clone, Copy, PartialEq, Eq, Hash, Debug)]
pub enum ExternalId<'a> {
    System(StrSpan<'a>),
    Public(StrSpan<'a>, StrSpan<'a>),
}

/// Representation of the [EntityDef](https://www.w3.org/TR/xml/#NT-EntityDef) value.
#[allow(missing_docs)]
#[derive(Clone, Copy, PartialEq, Eq, Hash, Debug)]
pub enum EntityDefinition<'a> {
    EntityValue(StrSpan<'a>),
    ExternalId(ExternalId<'a>),
}

/// What an `ExternalId` stands for.
pub enum ExternalRef {
    System(Slice),
    Public(Slice, Slice),
}

/// What an `EntityDefinition` stands for.
pub enum EntityDef {
    EntityValue(Slice),
    ExternalId(ExternalRef),
}

/// What an `ElementEnd` stands for.
pub enum Ending {
    Open,
    Close(Slice, Slice),
    Empty,
}

/// What a `Token` stands for: its kind and the parts of the text that it names.
pub enum Lexeme {
    Declaration { version: Slice, encoding: Option<Slice>, standalone: Option<bool>, span: Slice },
    ProcessingInstruction { target: Slice, content: Option<Slice>, span: Slice },
    Comment { text: Slice, span: Slice },
    DtdStart { name: Slice, external_id: Option<ExternalRef>, span: Slice },
    EmptyDtd { name: Slice, external_id: Option<ExternalRef>, span: Slice },
    EntityDeclaration { name: Slice, definition: EntityDef, span: Slice },
    DtdEnd { span: Slice },
    ElementStart { prefix: Slice, local: Slice, span: Slice },
    Attribute { prefix: Slice, local: Slice, value: Slice, span: Slice },
    ElementEnd { end: Ending, span: Slice },
    Text { text: Slice },
    Cdata { text: Slice, span: Slice },
}

impl ExternalRef {
    /// The literals are parts of `bytes` between `lo` and `hi`.
    pub open spec fn lies_in(self, bytes: Seq<u8>, lo: int, hi: int) -> bool {
        match self {
            ExternalRef::System(a) => a.lies_in(bytes, lo, hi),
            ExternalRef::Public(a, b) => a.lies_in(bytes, lo, hi) && b.lies_in(bytes, lo, hi),
        }
    }
}

impl EntityDef {
    /// The literals are parts of `bytes` between `lo` and `hi`.
    pub open spec fn lies_in(self, bytes: Seq<u8>, lo: int, hi: int) -> bool {
        match self {
            EntityDef::EntityValue(a) => a.lies_in(bytes, lo, hi),
            EntityDef::ExternalId(id) => id.lies_in(bytes, lo, hi),
        }
    }
}

impl Lexeme {
    /// The span of the token is a part of `bytes` between two character
    /// boundaries, and so is every part that the token names, within the span.
    pub open spec fn lies_in(self, bytes: Seq<u8>) -> bool {
        let lo = self.span().start;
        let hi = self.span().end();
        &&& self.span().lies_in(bytes, 0, bytes.len() as int)
        &&& match self {
            Lexeme::Declaration { version, encoding, .. } => {
                &&& version.lies_in(bytes, lo, hi)
                &&& encoding is Some ==> encoding->0.lies_in(bytes, lo, hi)
            },
            Lexeme::ProcessingInstruction { target, content, .. } => {
                &&& target.lies_in(bytes, lo, hi)
                &&& content is Some ==> content->0.lies_in(bytes, lo, hi)
            },
            Lexeme::Comment { text, .. } => text.lies_in(bytes, lo, hi),
            Lexeme::DtdStart { name, external_id, .. } => {
                &&& name.lies_in(bytes, lo, hi)
                &&& external_id is Some ==> external_id->0.lies_in(bytes, lo, hi)
            },
            Lexeme::EmptyDtd { name, external_id, .. } => {
                &&& name.lies_in(bytes, lo, hi)
                &&& external_id is Some ==> external_id->0.lies_in(bytes, lo, hi)
            },
            Lexeme::EntityDeclaration { name, definition, .. } => {
                &&& name.lies_in(bytes, lo, hi)
                &&& definition.lies_in(bytes, lo, hi)
            },
            Lexeme::DtdEnd { .. } => true,
            Lexeme::ElementStart { prefix, local, .. } => {
                &&& prefix.lies_in(bytes, lo, hi)
                &&& local.lies_in(bytes, lo, hi)
            },
            Lexeme::Attribute { prefix, local, value, .. } => {
                &&& prefix.lies_in(bytes, lo, hi)
                &&& local.lies_in(bytes, lo, hi)
                &&& value.lies_in(bytes, lo, hi)
            },
            Lexeme::ElementEnd { end, .. } => match end {
                Ending::Close(prefix, local) => {
                    &&& prefix.lies_in(bytes, lo, hi)
                    &&& local.lies_in(bytes, lo, hi)
                },
                _ => true,
            },
            Lexeme::Text { .. } => true,
            Lexeme::Cdata { text, .. } => text.lies_in(bytes, lo, hi),
        }
    }

    /// The part of the text that the whole token covers.
    pub open spec fn span(self) -> Slice {
        match self {
            Lexeme::Declaration { span, .. } => span,
            Lexeme::ProcessingInstruction { span, .. } => span,
            Lexeme::Comment { span, .. } => span,
            Lexeme::DtdStart { span, .. } => span,
            Lexeme::EmptyDtd { span, .. } => span,
            Lexeme::EntityDeclaration { span, .. } => span,
            Lexeme::DtdEnd { span } => span,
            Lexeme::ElementStart { span, .. } => span,
            Lexeme::Attribute { span, .. } => span,
            Lexeme::ElementEnd { span, .. } => span,
            Lexeme::Text { text } => text,
            Lexeme::Cdata { span, .. } => span,
        }
    }
}

/// The view of a span that may be absent.
pub open spec fn optional_slice(span: Option<StrSpan>) -> Option<Slice> {
    match span {
        Some(s) => Some(s@),
        None => None,
    }
}

impl<'a> View for ExternalId<'a> {
    type V = ExternalRef;

    open spec fn view(&self) -> ExternalRef {
        match *self {
            ExternalId::System(a) => ExternalRef::System(a@),
            ExternalId::Public(a, b) => ExternalRef::Public(a@, b@),
        }
    }
}

/// The view of an external identifier that may be absent.
pub open spec fn optional_external(id: Option<ExternalId>) -> Option<ExternalRef> {
    match id {
        Some(v) => Some(v@),
        None => None,
    }
}

impl<'a> View for EntityDefinition<'a> {
    type V = EntityDef;

    open spec fn view(&self) -> EntityDef {
        match *self {
            EntityDefinition::EntityValue(a) => EntityDef::EntityValue(a@),
            EntityDefinition::ExternalId(id) => EntityDef::ExternalId(id@),
        }
    }
}

impl<'a> View for ElementEnd<'a> {
    type V = Ending;

    open spec fn view(&self) -> Ending {
        match *self {
            ElementEnd::Open => Ending::Open,
            ElementEnd::Close(a, b) => Ending::Close(a@, b@),
            ElementEnd::Empty => Ending::Empty,
        }
    }
}

impl<'a> View for Token<'a> {
    type V = Lexeme;

    open spec fn view(&self) -> Lexeme {
        match *self {
            Token::Declaration { version, encoding, standalone, span } => Lexeme::Declaration {
                version: version@,
                encoding: optional_slice(encoding),
                standalone,
                span: span@,
            },
            Token::ProcessingInstruction { target, content, span } => {
                Lexeme::ProcessingInstruction {
                    target: target@,
                    content: optional_slice(content),
                    span: span@,
                }
            },
            Token::Comment { text, span } => Lexeme::Comment { text: text@, span: span@ },
            Token::DtdStart { name, external_id, span } => Lexeme::DtdStart {
                name: name@,
                external_id: optional_external(external_id),
                span: span@,
            },
            Token::EmptyDtd { name, external_id, span } => Lexeme::EmptyDtd {
                name: name@,
                external_id: optional_external(external_id),
                span: span@,
            },
            Token::EntityDeclaration { name, definition, span } => Lexeme::EntityDeclaration {
                name: name@,
                definition: definition@,
                span: span@,
            },
            Token::DtdEnd { span } => Lexeme::DtdEnd { span: span@ },
            Token::ElementStart { prefix, local, span } => Lexeme::ElementStart {
                prefix: prefix@,
                local: local@,
                span: span@,
            },
            Token::Attribute { prefix, local, value, span } => Lexeme::Attribute {
                prefix: prefix@,
                local: local@,
                value: value@,
                span: span@,
            },
            Token::ElementEnd { end, span } => Lexeme::ElementEnd { end: end@, span: span@ },
            Token::Text { text } => Lexeme::Text { text: text@ },
            Token::Cdata { text, span } => Lexeme::Cdata { text: text@, span: span@ },
        }
    }
}

impl<'a> Token<'a> {
    /// Returns the span of the whole token.
    pub fn span(&self) -> (r: StrSpan<'a>)
        ensures
            r@ == self@.span(),
    {
        match *self {
            Token::Declaration { span, .. } => span,
            Token::ProcessingInstruction { span, .. } => span,
            Token::Comment { span, .. } => span,
            Token::DtdStart { span, .. } => span,
            Token::EmptyDtd { span, .. } => span,
            Token::EntityDeclaration { span, .. } => span,
            Token::DtdEnd { span } => span,
            Token::ElementStart { span, .. } => span,
            Token::Attribute { span, .. } => span,
            Token::ElementEnd { span, .. } => span,
            Token::Text { text } => text,
            Token::Cdata { span, .. } => span,
        }
    }
}

} // verus!
