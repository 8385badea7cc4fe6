//! The failures that reading a document can end in.

use vstd::prelude::*;

verus! {

/// The step of decoding a layer body that rejected its input.
#[derive(Debug, Clone, Copy, PartialEq, Eq)]
pub enum ContentStage {
    /// The text is not base64.
    Base64,
    /// The bytes are not a zlib stream.
    Zlib,
    /// The bytes are not a gzip stream.
    Gzip,
    /// A token of a comma-separated body is not an unsigned 32-bit decimal.
    Integer,
}

/// Why a document could not be read. Every failure ends the attempt: no
/// partial map or tileset is ever handed out.
#[derive(Debug, Clone, PartialEq, Eq)]
pub enum TiledError {
    /// A required attribute is missing, or an attribute's text was rejected.
    MalformedAttributes { attribute: &'static str, message: &'static str },
    /// The markup itself is invalid; the text is the reader's own message.
    XmlDecodingError(String),
    /// The body of a tile layer could not be decoded.
    ContentDecodingError(ContentStage),
    /// The events ended before an element was closed.
    PrematureEnd(&'static str),
    /// A tileset kept in another file is named by a map whose own location is
    /// unknown.
    UnresolvableReference(&'static str),
    /// A file could not be opened or read.
    IoError(String),
    /// The document is readable but breaks a rule of the format.
    InvalidFormat(&'static str),
}

} // verus!
