use vstd::prelude::*;

verus! {

/// The kind of failure a byte source reports.
#[derive(Debug, Clone, Copy, PartialEq, Eq, Structural)]
pub enum IoErrorKind {
    /// Fewer bytes were left than an exact read asked for.
    UnexpectedEof,
    /// A seek would have moved the position past the largest 64-bit offset.
    InvalidInput,
    /// Any other failure. The in-memory source never reports it.
    Other,
}

/// `core::str::Utf8Error`, carried through unread.
#[verifier::external_type_specification]
#[verifier::external_body]
pub struct ExUtf8Error(core::str::Utf8Error);

/// Why a decode or a key lookup failed.
#[derive(Debug)]
pub enum DCKVError {
    /// The value-representation code is unknown and is not text either.
    InvalidVR,
    /// A sequence holds something that is neither an item nor its delimiter.
    InvalidSQTag,
    /// An item declares more bytes than the sequence that holds it.
    InvalidSQItemLength,
    /// The value-representation code is text, but no category knows it.
    UnsupportedVR(String),
    /// The byte source failed.
    IOError(IoErrorKind),
    /// The value-representation slot of a key is not text.
    Utf8Error(core::str::Utf8Error),
    /// An item opens a thirteenth nesting level; a key has room for twelve.
    DepthExceeded,
    /// A sequence holds more items than the item slot of a key can number.
    SQItemOverflow,
}

/// A [`DCKVError`] as a plain value.
pub enum Failure {
    InvalidVR,
    InvalidSQTag,
    InvalidSQItemLength,
    UnsupportedVR(Seq<char>),
    IOError(IoErrorKind),
    Utf8Error,
    DepthExceeded,
    SQItemOverflow,
}

impl View for DCKVError {
    type V = Failure;

    open spec fn view(&self) -> Failure {
        match self {
            DCKVError::InvalidVR => Failure::InvalidVR,
            DCKVError::InvalidSQTag => Failure::InvalidSQTag,
            DCKVError::InvalidSQItemLength => Failure::InvalidSQItemLength,
            DCKVError::UnsupportedVR(text) => Failure::UnsupportedVR(text@),
            DCKVError::IOError(kind) => Failure::IOError(*kind),
            DCKVError::Utf8Error(_) => Failure::Utf8Error,
            DCKVError::DepthExceeded => Failure::DepthExceeded,
            DCKVError::SQItemOverflow => Failure::SQItemOverflow,
        }
    }
}

} // verus!
