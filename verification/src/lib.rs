//! A low-level, pull-based XML 1.0 tokenizer that keeps the position of every
//! token in the source text.
//!
//! ```text
//! let mut tokenizer = Tokenizer::from("<tagname name='value'/>");
//! while let Some(token) = tokenizer.next() { .. }
//! ```
//!
//! The tokens hold [`StrSpan`]s: slices of the text that know where they
//! stand. Nothing is copied and nothing is validated beyond the shape of
//! the tokens: elements need not be balanced and attributes may be repeated.
//!
//! # What is proved
//!
//! Every function of the library is verified. The contracts speak of
//! mathematical objects:
//!
//! - a [`Stream`] is viewed as a [`Cursor`]: the bytes of the text, a
//!   position and an end. The module `cursor` says what each primitive of
//!   the stream makes of a cursor.
//! - a [`Tokenizer`] is viewed as a `Machine`: a cursor, a state and the
//!   number of open elements. The module `grammar` says how each construct
//!   of XML is read from a cursor, the module `machine` which construct each
//!   state looks for. `Tokenizer::next` returns what `Machine::next` says.
//! - a [`Token`] is viewed as a [`Lexeme`], an [`Error`] as a [`Fault`].
//!
//! The modules `laws` and `fidelity` state what holds of every pull,
//! whatever the text: that the pulls come to an end, that nothing follows
//! an error, that tokens follow one another in the text, that their spans
//! are parts of the text, and that a token is read again from its span.

pub mod cursor;
pub mod encoding;
pub mod error;
pub mod fidelity;
pub mod grammar;
pub mod laws;
pub mod locality;
pub mod machine;
pub mod soundness;
pub mod stream;
pub mod strspan;
pub mod token;
pub mod tokenizer;
pub mod xmlchar;

pub use crate::cursor::{Cursor, Referent};
pub use crate::error::{Error, Fault, StreamError, StreamFault, TextPos};
pub use crate::machine::{Machine, State};
pub use crate::stream::{ByteStream, Reference, Stream};
pub use crate::strspan::{Slice, StrSpan};
pub use crate::token::{
    ElementEnd, Ending, EntityDef, EntityDefinition, ExternalId, ExternalRef, Lexeme, Token,
};
pub use crate::tokenizer::Tokenizer;
pub use crate::xmlchar::{XmlByteExt, XmlCharExt};
