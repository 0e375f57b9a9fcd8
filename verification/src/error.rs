//! Positions in the source text and the errors of the stream and the tokenizer.

use vstd::prelude::*;
use vstd::string::StringExecFns;

verus! {

/// Position in text.
///
/// Position indicates a row/line and a column in the source text. Starting from 1:1.
#[derive(Clone, Copy, PartialEq, Eq, Hash, Debug)]
#[allow(missing_docs)]
pub struct TextPos {
    pub row: u32,
    pub col: u32,
}

/// The text of a position: row, `:` and column.
pub open spec fn text_pos_text(pos: TextPos) -> Seq<char> {
    decimal(pos.row as nat) + ":"@ + decimal(pos.col as nat)
}

/// Appends the text of a position.
fn push_text_pos(s: &mut String, pos: TextPos)
    ensures
        final(s)@ == old(s)@ + text_pos_text(pos),
{
    push_decimal(s, pos.row);
    s.append(":");
    push_decimal(s, pos.col);
    assert(old(s)@ + text_pos_text(pos) =~= old(s)@ + decimal(pos.row as nat) + ":"@ + decimal(
        pos.col as nat,
    ));
}

impl TextPos {
    /// The position as text: `row:col`.
    pub fn to_string(&self) -> (r: String)
        ensures
            r@ == text_pos_text(*self),
    {
        let mut s = String::new();
        push_text_pos(&mut s, *self);
        assert(Seq::<char>::empty() + text_pos_text(*self) =~= text_pos_text(*self));
        s
    }

    /// Constructs a new `TextPos`.
    ///
    /// Positions are normally obtained from `Stream::gen_text_pos`.
    pub fn new(row: u32, col: u32) -> (r: TextPos)
        ensures
            r == (TextPos { row, col }),
    {
        TextPos { row, col }
    }
}

/// A stream parser errors.
#[derive(Clone, Copy, PartialEq, Eq, Hash, Debug)]
pub enum StreamError {
    /// The steam ended earlier than we expected.
    ///
    /// Should only appear on invalid input data.
    /// Errors in a valid XML should be handled by errors below.
    UnexpectedEndOfStream,
    /// An invalid name.
    InvalidName,
    /// A non-XML character has occurred.
    ///
    /// Valid characters are: <https://www.w3.org/TR/xml/#char32>
    NonXmlChar(char, TextPos),
    /// An invalid/unexpected character.
    ///
    /// The first byte is an actual one, the second one is expected.
    InvalidChar(u8, u8, TextPos),
    /// An invalid/unexpected character.
    ///
    /// Just like `InvalidChar`, but specifies multiple expected characters.
    InvalidCharMultiple(u8, &'static [u8], TextPos),
    /// An unexpected character instead of `"` or `'`.
    InvalidQuote(u8, TextPos),
    /// An unexpected character instead of an XML space.
    ///
    /// Includes: `' ' \n \r \t &#x20; &#x9; &#xD; &#xA;`.
    InvalidSpace(u8, TextPos),
    /// An unexpected string.
    ///
    /// Contains what string was expected.
    InvalidString(&'static str, TextPos),
    /// An invalid reference.
    InvalidReference,
    /// An invalid ExternalID in the DTD.
    InvalidExternalID,
    /// Comment cannot contain `--`.
    InvalidCommentData,
    /// Comment cannot end with `-`.
    InvalidCommentEnd,
    /// A Character Data node contains an invalid data.
    ///
    /// Currently, only `]]>` is not allowed.
    InvalidCharacterData,
}

/// What a `StreamError` says: the expected bytes and the expected text are
/// given by their contents.
pub enum StreamFault {
    UnexpectedEndOfStream,
    InvalidName,
    NonXmlChar(char, TextPos),
    InvalidChar(u8, u8, TextPos),
    InvalidCharMultiple(u8, Seq<u8>, TextPos),
    InvalidQuote(u8, TextPos),
    InvalidSpace(u8, TextPos),
    InvalidString(Seq<char>, TextPos),
    InvalidReference,
    InvalidExternalID,
    InvalidCommentData,
    InvalidCommentEnd,
    InvalidCharacterData,
}

impl View for StreamError {
    type V = StreamFault;

    open spec fn view(&self) -> StreamFault {
        match *self {
            StreamError::UnexpectedEndOfStream => StreamFault::UnexpectedEndOfStream,
            StreamError::InvalidName => StreamFault::InvalidName,
            StreamError::NonXmlChar(c, pos) => StreamFault::NonXmlChar(c, pos),
            StreamError::InvalidChar(actual, expected, pos) => StreamFault::InvalidChar(
                actual,
                expected,
                pos,
            ),
            StreamError::InvalidCharMultiple(actual, expected, pos) => {
                StreamFault::InvalidCharMultiple(actual, expected@, pos)
            },
            StreamError::InvalidQuote(c, pos) => StreamFault::InvalidQuote(c, pos),
            StreamError::InvalidSpace(c, pos) => StreamFault::InvalidSpace(c, pos),
            StreamError::InvalidString(expected, pos) => StreamFault::InvalidString(expected@, pos),
            StreamError::InvalidReference => StreamFault::InvalidReference,
            StreamError::InvalidExternalID => StreamFault::InvalidExternalID,
            StreamError::InvalidCommentData => StreamFault::InvalidCommentData,
            StreamError::InvalidCommentEnd => StreamFault::InvalidCommentEnd,
            StreamError::InvalidCharacterData => StreamFault::InvalidCharacterData,
        }
    }
}

/// `String::push` appends the character to the end of the string.
pub assume_specification[ String::push ](s: &mut String, c: char)
    ensures
        final(s)@ == old(s)@.push(c),
;

/// The text that `{:?}` prints for a character: the character in single
/// quotes, escaped where it is not printable.
pub uninterp spec fn char_debug_text(c: char) -> Seq<char>;

/// Formats a character with `{:?}`, that is with `<char as Debug>::fmt`.
#[verifier::external_body]
fn format_char_debug(c: char) -> (r: String)
    ensures
        r@ == char_debug_text(c),
{
    format!("{:?}", c)
}

/// The decimal digit for `d`.
pub open spec fn digit_char(d: nat) -> char {
    ((0x30 + d) as u8) as char
}

/// The decimal numeral of `n`, without leading zeros.
pub open spec fn decimal(n: nat) -> Seq<char>
    decreases n,
{
    if n < 10 {
        seq![digit_char(n)]
    } else {
        decimal(n / 10).push(digit_char(n % 10))
    }
}

/// Appends the decimal numeral of `n`.
fn push_decimal(s: &mut String, n: u32)
    ensures
        final(s)@ == old(s)@ + decimal(n as nat),
    decreases n,
{
    if n >= 10 {
        push_decimal(s, n / 10);
    }
    let d: u8 = (n % 10) as u8;
    s.push((0x30 + d) as char);
    proof {
        if n >= 10 {
            assert(old(s)@ + decimal((n / 10) as nat).push(digit_char((n % 10) as nat)) =~= (old(
                s,
            )@ + decimal((n / 10) as nat)).push(digit_char((n % 10) as nat)));
        } else {
            assert(old(s)@ + seq![digit_char(n as nat)] =~= old(s)@.push(digit_char(n as nat)));
        }
    }
}

/// A byte in single quotes, read as the character with its number.
pub open spec fn quoted_byte(b: u8) -> Seq<char> {
    seq!['\'', b as char, '\'']
}

/// Appends a byte in single quotes.
fn push_quoted_byte(s: &mut String, b: u8)
    ensures
        final(s)@ == old(s)@ + quoted_byte(b),
{
    s.push('\'');
    s.push(b as char);
    s.push('\'');
    assert(old(s)@ + quoted_byte(b) =~= old(s)@.push('\'').push(b as char).push('\''));
}

/// The bytes in single quotes, with `, ` between them.
pub open spec fn quoted_bytes(bytes: Seq<u8>) -> Seq<char>
    decreases bytes.len(),
{
    if bytes.len() == 0 {
        Seq::empty()
    } else if bytes.len() == 1 {
        quoted_byte(bytes[0])
    } else {
        quoted_bytes(bytes.drop_last()) + ", "@ + quoted_byte(bytes.last())
    }
}

/// The message of a stream error.
pub open spec fn stream_fault_text(e: StreamFault) -> Seq<char> {
    match e {
        StreamFault::UnexpectedEndOfStream => "unexpected end of stream"@,
        StreamFault::InvalidName => "invalid name token"@,
        StreamFault::NonXmlChar(c, pos) => "a non-XML character "@ + char_debug_text(c)
            + " found at "@ + text_pos_text(pos),
        StreamFault::InvalidChar(actual, expected, pos) => "expected "@ + quoted_byte(expected)
            + " not "@ + quoted_byte(actual) + " at "@ + text_pos_text(pos),
        StreamFault::InvalidCharMultiple(actual, expected, pos) => "expected "@ + quoted_bytes(
            expected,
        ) + " not "@ + quoted_byte(actual) + " at "@ + text_pos_text(pos),
        StreamFault::InvalidQuote(c, pos) => "expected quote mark not "@ + quoted_byte(c)
            + " at "@ + text_pos_text(pos),
        StreamFault::InvalidSpace(c, pos) => "expected space not "@ + quoted_byte(c) + " at "@
            + text_pos_text(pos),
        StreamFault::InvalidString(expected, pos) => "expected '"@ + expected + "' at "@
            + text_pos_text(pos),
        StreamFault::InvalidReference => "invalid reference"@,
        StreamFault::InvalidExternalID => "invalid ExternalID"@,
        StreamFault::InvalidCommentData => "'--' is not allowed in comments"@,
        StreamFault::InvalidCommentEnd => "comment cannot end with '-'"@,
        StreamFault::InvalidCharacterData => "']]>' is not allowed inside a character data"@,
    }
}

/// Appends the bytes in single quotes, with `, ` between them.
fn push_quoted_bytes(s: &mut String, bytes: &[u8])
    ensures
        final(s)@ == old(s)@ + quoted_bytes(bytes@),
{
    let mut i: usize = 0;
    while i < bytes.len()
        invariant
            i <= bytes@.len(),
            s@ == old(s)@ + quoted_bytes(bytes@.take(i as int)),
        decreases bytes@.len() - i,
    {
        let ghost before = s@;
        if i > 0 {
            s.append(", ");
        }
        push_quoted_byte(s, bytes[i]);
        proof {
            let longer = bytes@.take(i + 1);
            assert(longer.drop_last() =~= bytes@.take(i as int));
            assert(longer.last() == bytes@[i as int]);
            if i > 0 {
                assert(s@ =~= old(s)@ + (quoted_bytes(bytes@.take(i as int)) + ", "@
                    + quoted_byte(bytes@[i as int])));
            } else {
                assert(quoted_bytes(bytes@.take(0)) =~= Seq::<char>::empty());
                assert(s@ =~= old(s)@ + quoted_byte(bytes@[0]));
            }
        }
        i += 1;
    }
    assert(bytes@.take(i as int) =~= bytes@);
}

impl StreamError {
    /// The message for a character that is no XML character: `shown` is
    /// the text that stands for the character, `pos` is where it was found.
    pub fn non_xml_char_text(shown: &str, pos: TextPos) -> (r: String)
        ensures
            r@ == "a non-XML character "@ + shown@ + " found at "@ + text_pos_text(pos),
    {
        let mut s = String::from_str("a non-XML character ");
        s.append(shown);
        s.append(" found at ");
        push_text_pos(&mut s, pos);
        s
    }

    /// Appends the message of the error.
    fn push_to(&self, s: &mut String)
        ensures
            final(s)@ == old(s)@ + stream_fault_text(self@),
    {
        match *self {
            StreamError::UnexpectedEndOfStream => {
                s.append("unexpected end of stream");
            },
            StreamError::InvalidName => {
                s.append("invalid name token");
            },
            StreamError::NonXmlChar(c, pos) => {
                let shown = format_char_debug(c);
                let text = Self::non_xml_char_text(shown.as_str(), pos);
                s.append(text.as_str());
            },
            StreamError::InvalidChar(actual, expected, pos) => {
                s.append("expected ");
                push_quoted_byte(s, expected);
                s.append(" not ");
                push_quoted_byte(s, actual);
                s.append(" at ");
                push_text_pos(s, pos);
                assert(s@ =~= old(s)@ + stream_fault_text(self@));
            },
            StreamError::InvalidCharMultiple(actual, expected, pos) => {
                s.append("expected ");
                push_quoted_bytes(s, expected);
                s.append(" not ");
                push_quoted_byte(s, actual);
                s.append(" at ");
                push_text_pos(s, pos);
                assert(s@ =~= old(s)@ + stream_fault_text(self@));
            },
            StreamError::InvalidQuote(c, pos) => {
                s.append("expected quote mark not ");
                push_quoted_byte(s, c);
                s.append(" at ");
                push_text_pos(s, pos);
                assert(s@ =~= old(s)@ + stream_fault_text(self@));
            },
            StreamError::InvalidSpace(c, pos) => {
                s.append("expected space not ");
                push_quoted_byte(s, c);
                s.append(" at ");
                push_text_pos(s, pos);
                assert(s@ =~= old(s)@ + stream_fault_text(self@));
            },
            StreamError::InvalidString(expected, pos) => {
                s.append("expected '");
                s.append(expected);
                s.append("' at ");
                push_text_pos(s, pos);
                assert(s@ =~= old(s)@ + stream_fault_text(self@));
            },
            StreamError::InvalidReference => {
                s.append("invalid reference");
            },
            StreamError::InvalidExternalID => {
                s.append("invalid ExternalID");
            },
            StreamError::InvalidCommentData => {
                s.append("'--' is not allowed in comments");
            },
            StreamError::InvalidCommentEnd => {
                s.append("comment cannot end with '-'");
            },
            StreamError::InvalidCharacterData => {
                s.append("']]>' is not allowed inside a character data");
            },
        }
    }

    /// The message of the error.
    pub fn to_string(&self) -> (r: String)
        ensures
            r@ == stream_fault_text(self@),
    {
        let mut s = String::new();
        self.push_to(&mut s);
        assert(Seq::<char>::empty() + stream_fault_text(self@) =~= stream_fault_text(self@));
        s
    }
}

/// An XML parser errors.
#[allow(missing_docs)]
#[derive(Clone, Copy, PartialEq, Eq, Hash, Debug)]
pub enum Error {
    InvalidDeclaration(StreamError, TextPos),
    InvalidComment(StreamError, TextPos),
    InvalidPI(StreamError, TextPos),
    InvalidDoctype(StreamError, TextPos),
    InvalidEntity(StreamError, TextPos),
    InvalidElement(StreamError, TextPos),
    InvalidAttribute(StreamError, TextPos),
    InvalidCdata(StreamError, TextPos),
    InvalidCharData(StreamError, TextPos),
    UnknownToken(TextPos),
}

/// What an `Error` says: the construct that failed, the cause by its
/// contents, and the position of the construct.
pub enum Fault {
    InvalidDeclaration(StreamFault, TextPos),
    InvalidComment(StreamFault, TextPos),
    InvalidPI(StreamFault, TextPos),
    InvalidDoctype(StreamFault, TextPos),
    InvalidEntity(StreamFault, TextPos),
    InvalidElement(StreamFault, TextPos),
    InvalidAttribute(StreamFault, TextPos),
    InvalidCdata(StreamFault, TextPos),
    InvalidCharData(StreamFault, TextPos),
    UnknownToken(TextPos),
}

impl Fault {
    /// The position that the fault carries.
    pub open spec fn pos(self) -> TextPos {
        match self {
            Fault::InvalidDeclaration(_, pos) => pos,
            Fault::InvalidComment(_, pos) => pos,
            Fault::InvalidPI(_, pos) => pos,
            Fault::InvalidDoctype(_, pos) => pos,
            Fault::InvalidEntity(_, pos) => pos,
            Fault::InvalidElement(_, pos) => pos,
            Fault::InvalidAttribute(_, pos) => pos,
            Fault::InvalidCdata(_, pos) => pos,
            Fault::InvalidCharData(_, pos) => pos,
            Fault::UnknownToken(pos) => pos,
        }
    }
}

impl View for Error {
    type V = Fault;

    open spec fn view(&self) -> Fault {
        match *self {
            Error::InvalidDeclaration(cause, pos) => Fault::InvalidDeclaration(cause@, pos),
            Error::InvalidComment(cause, pos) => Fault::InvalidComment(cause@, pos),
            Error::InvalidPI(cause, pos) => Fault::InvalidPI(cause@, pos),
            Error::InvalidDoctype(cause, pos) => Fault::InvalidDoctype(cause@, pos),
            Error::InvalidEntity(cause, pos) => Fault::InvalidEntity(cause@, pos),
            Error::InvalidElement(cause, pos) => Fault::InvalidElement(cause@, pos),
            Error::InvalidAttribute(cause, pos) => Fault::InvalidAttribute(cause@, pos),
            Error::InvalidCdata(cause, pos) => Fault::InvalidCdata(cause@, pos),
            Error::InvalidCharData(cause, pos) => Fault::InvalidCharData(cause@, pos),
            Error::UnknownToken(pos) => Fault::UnknownToken(pos),
        }
    }
}

/// The name of the construct that a fault speaks of.
pub open spec fn fault_kind_text(e: Fault) -> Seq<char> {
    match e {
        Fault::InvalidDeclaration(_, _) => "invalid XML declaration at "@,
        Fault::InvalidComment(_, _) => "invalid comment at "@,
        Fault::InvalidPI(_, _) => "invalid processing instruction at "@,
        Fault::InvalidDoctype(_, _) => "invalid DTD at "@,
        Fault::InvalidEntity(_, _) => "invalid DTD entity at "@,
        Fault::InvalidElement(_, _) => "invalid element at "@,
        Fault::InvalidAttribute(_, _) => "invalid attribute at "@,
        Fault::InvalidCdata(_, _) => "invalid CDATA at "@,
        Fault::InvalidCharData(_, _) => "invalid character data at "@,
        Fault::UnknownToken(_) => "unknown token at "@,
    }
}

impl Fault {
    /// The cause that the fault carries, if it carries one.
    pub open spec fn cause(self) -> Option<StreamFault> {
        match self {
            Fault::InvalidDeclaration(cause, _) => Some(cause),
            Fault::InvalidComment(cause, _) => Some(cause),
            Fault::InvalidPI(cause, _) => Some(cause),
            Fault::InvalidDoctype(cause, _) => Some(cause),
            Fault::InvalidEntity(cause, _) => Some(cause),
            Fault::InvalidElement(cause, _) => Some(cause),
            Fault::InvalidAttribute(cause, _) => Some(cause),
            Fault::InvalidCdata(cause, _) => Some(cause),
            Fault::InvalidCharData(cause, _) => Some(cause),
            Fault::UnknownToken(_) => None,
        }
    }
}

/// The message of an error: the construct, the position, and the cause
/// where there is one.
pub open spec fn fault_text(e: Fault) -> Seq<char> {
    match e.cause() {
        Some(cause) => fault_kind_text(e) + text_pos_text(e.pos()) + " cause "@
            + stream_fault_text(cause),
        None => fault_kind_text(e) + text_pos_text(e.pos()),
    }
}

impl Error {
    /// The cause of the error, if it has one.
    pub fn cause(&self) -> (r: Option<StreamError>)
        ensures
            match self@.cause() {
                Some(c) => r is Some && r->0@ == c,
                None => r is None,
            },
    {
        match *self {
            Error::InvalidDeclaration(cause, _) => Some(cause),
            Error::InvalidComment(cause, _) => Some(cause),
            Error::InvalidPI(cause, _) => Some(cause),
            Error::InvalidDoctype(cause, _) => Some(cause),
            Error::InvalidEntity(cause, _) => Some(cause),
            Error::InvalidElement(cause, _) => Some(cause),
            Error::InvalidAttribute(cause, _) => Some(cause),
            Error::InvalidCdata(cause, _) => Some(cause),
            Error::InvalidCharData(cause, _) => Some(cause),
            Error::UnknownToken(_) => None,
        }
    }

    /// The message of the error.
    pub fn to_string(&self) -> (r: String)
        ensures
            r@ == fault_text(self@),
    {
        let kind = match *self {
            Error::InvalidDeclaration(_, _) => "invalid XML declaration at ",
            Error::InvalidComment(_, _) => "invalid comment at ",
            Error::InvalidPI(_, _) => "invalid processing instruction at ",
            Error::InvalidDoctype(_, _) => "invalid DTD at ",
            Error::InvalidEntity(_, _) => "invalid DTD entity at ",
            Error::InvalidElement(_, _) => "invalid element at ",
            Error::InvalidAttribute(_, _) => "invalid attribute at ",
            Error::InvalidCdata(_, _) => "invalid CDATA at ",
            Error::InvalidCharData(_, _) => "invalid character data at ",
            Error::UnknownToken(_) => "unknown token at ",
        };
        let mut s = String::from_str(kind);
        push_text_pos(&mut s, self.pos());
        match self.cause() {
            Some(cause) => {
                s.append(" cause ");
                cause.push_to(&mut s);
                assert(s@ =~= fault_text(self@));
            },
            None => {},
        }
        s
    }

    /// Returns the error position.
    pub fn pos(&self) -> (r: TextPos)
        ensures
            r == self@.pos(),
    {
        match *self {
            Error::InvalidDeclaration(_, pos) => pos,
            Error::InvalidComment(_, pos) => pos,
            Error::InvalidPI(_, pos) => pos,
            Error::InvalidDoctype(_, pos) => pos,
            Error::InvalidEntity(_, pos) => pos,
            Error::InvalidElement(_, pos) => pos,
            Error::InvalidAttribute(_, pos) => pos,
            Error::InvalidCdata(_, pos) => pos,
            Error::InvalidCharData(_, pos) => pos,
            Error::UnknownToken(pos) => pos,
        }
    }
}

} // verus!
