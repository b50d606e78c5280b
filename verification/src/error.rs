//! Errors, and how they travel through input and output.

use vstd::prelude::*;
use vstd::string::*;

use crate::text::{byte_list_text, decimal_text, InvalidUtf8};
use crate::text::{byte_list, decimal};

verus! {

/// What kind of failure an [`IoError`] is. The kinds of the standard library
/// that reading and writing bytes gives rise to.
#[derive(Debug, Clone, Copy, PartialEq, Eq, Structural)]
pub enum ErrorKind {
    NotFound,
    PermissionDenied,
    ConnectionRefused,
    ConnectionReset,
    ConnectionAborted,
    NotConnected,
    BrokenPipe,
    AlreadyExists,
    WouldBlock,
    InvalidInput,
    InvalidData,
    TimedOut,
    WriteZero,
    Interrupted,
    Unsupported,
    UnexpectedEof,
    OutOfMemory,
    Other,
}

/// What an [`IoError`] carries besides its kind.
#[derive(Debug, PartialEq, Eq)]
pub enum Detail {
    /// A message.
    Message(String),
    /// One of this crate's errors.
    Carried(Box<Error>),
    /// The transport stopped a body that ran past the largest it allows, and
    /// said this.
    BodyTooLarge(String),
}

/// A failure to read or write bytes.
#[derive(Debug, PartialEq, Eq)]
pub struct IoError {
    pub kind: ErrorKind,
    pub detail: Detail,
}

/// Errors produced when parsing or serializing flow files.
#[allow(inconsistent_fields)]
#[derive(Debug, PartialEq, Eq)]
#[non_exhaustive]
pub enum Error {
    /// An underlying I/O error, including unexpected end of input while
    /// parsing the header.
    ///
    /// Converting an [`IoError`] into an [`Error`] goes through [`From`],
    /// which recovers a truncation as [`SizeMismatch`](Self::SizeMismatch)
    /// instead of wrapping it here.
    ///
    /// Transparent: this variant adds nothing to what the error it carries
    /// already says.
    Io(IoError),
    /// The input does not start with the `NiFiFF3` magic header.
    InvalidMagic([u8; 7]),
    /// An attribute key or value is not valid UTF-8.
    InvalidAttribute(InvalidUtf8),
    /// The content length does not match the size declared in the header.
    SizeMismatch {
        /// The content size declared in the flow file header.
        expected: u64,
        /// The number of content bytes actually available.
        actual: u64,
    },
    /// Extra bytes remained after the declared content when parsing a buffer
    /// expected to hold exactly one flow file.
    TrailingData(u64),
    /// The header declares more attributes than the configured
    /// [`Limits`](crate::Limits) allow.
    TooManyAttributes {
        /// The attribute count declared in the header.
        count: usize,
        /// The configured maximum.
        limit: usize,
    },
    /// An attribute key or value is longer than the configured
    /// [`Limits`](crate::Limits) allow.
    AttributeTooLong {
        /// The declared length of the key or value, in bytes.
        len: usize,
        /// The configured maximum.
        limit: usize,
    },
    /// The attributes take more bytes together than the configured
    /// [`Limits`](crate::Limits) allow.
    HeaderTooLarge {
        /// How many bytes of keys and values had been declared.
        len: usize,
        /// The configured maximum.
        limit: usize,
    },
    /// A write was attempted on a [`FlowFilesWriter`](crate::FlowFilesWriter)
    /// or its async twin after an earlier write failed, leaving the stream
    /// part-way through a flow file.
    ///
    /// Reported as an [`IoError`] of kind
    /// [`BrokenPipe`](ErrorKind::BrokenPipe) carrying this value, which is how
    /// to tell a poisoned writer from any other write failure without matching
    /// on the message.
    WriterPoisoned,
    /// The header declares more content than the configured
    /// [`Limits`](crate::Limits) allow.
    ///
    /// Raised from the declared size alone, before any content is read.
    ContentTooLarge {
        /// The content size declared in the flow file header.
        size: u64,
        /// The configured maximum.
        limit: u64,
    },
}

/// Convenience alias for results produced by this crate.
pub type Result<T> = core::result::Result<T, Error>;

/// The kind an error travels under: a truncation is an unexpected end, a
/// poisoned writer a broken pipe, and everything else bad data.
pub open spec fn travel_kind(err: Error) -> ErrorKind {
    match err {
        Error::SizeMismatch { .. } => ErrorKind::UnexpectedEof,
        Error::WriterPoisoned => ErrorKind::BrokenPipe,
        _ => ErrorKind::InvalidData,
    }
}

/// An error on its way through I/O. [`Error::Io`] is the I/O error it
/// carries; anything else is carried by one.
pub open spec fn into_io(err: Error) -> IoError {
    match err {
        Error::Io(io) => io,
        _ => IoError { kind: travel_kind(err), detail: Detail::Carried(Box::new(err)) },
    }
}

/// Whether an I/O error is what [`truncated`] makes: an unexpected end that
/// carries a size mismatch.
pub open spec fn is_truncation(err: IoError) -> bool {
    &&& err.kind == ErrorKind::UnexpectedEof
    &&& err.detail matches Detail::Carried(inner) && *inner is SizeMismatch
}

/// An error on its way back: a truncation is the size mismatch it carries, and
/// anything else stays an I/O error.
pub open spec fn from_io(err: IoError) -> Error {
    if is_truncation(err) {
        *err.detail->Carried_0
    } else {
        Error::Io(err)
    }
}

/// The content ran out before the declared size, as an [`IoError`] carrying
/// the structured [`Error::SizeMismatch`] as its payload.
pub fn truncated(expected: u64, actual: u64) -> (err: IoError)
    ensures
        err == into_io(Error::SizeMismatch { expected, actual }),
        is_truncation(err),
{
    IoError {
        kind: ErrorKind::UnexpectedEof,
        detail: Detail::Carried(Box::new(Error::SizeMismatch { expected, actual })),
    }
}

/// The inverse of [`truncated`], and the whole of `From<IoError> for Error`:
/// recover the structured error an [`IoError`] carries, so that an API
/// returning [`Error`] reports a truncation as [`Error::SizeMismatch`] rather
/// than burying it one level down in [`Error::Io`].
///
/// Deliberately narrow: only the exact shape [`truncated`] produces is
/// unwrapped. Any other carried [`Error`] stays inside [`Error::Io`], because
/// it came from somewhere else: readers compose, and one flow-file stream
/// nested inside another must not report the inner stream's `InvalidMagic` as
/// if it were its own.
pub fn unwrap_io(err: IoError) -> (e: Error)
    ensures
        e == from_io(err),
{
    let IoError { kind, detail } = err;
    match detail {
        Detail::Carried(inner) => {
            let inner = *inner;
            match inner {
                Error::SizeMismatch { expected, actual } => if kind == ErrorKind::UnexpectedEof {
                    Error::SizeMismatch { expected, actual }
                } else {
                    Error::Io(
                        IoError {
                            kind,
                            detail: Detail::Carried(Box::new(Error::SizeMismatch { expected, actual })),
                        },
                    )
                },
                other => Error::Io(IoError { kind, detail: Detail::Carried(Box::new(other)) }),
            }
        },
        detail => Error::Io(IoError { kind, detail }),
    }
}

/// A write was attempted on a writer whose stream is already mid-flow-file.
pub fn poisoned() -> (err: IoError)
    ensures
        err == into_io(Error::WriterPoisoned),
{
    IoError { kind: ErrorKind::BrokenPipe, detail: Detail::Carried(Box::new(Error::WriterPoisoned)) }
}

impl vstd::std_specs::convert::FromSpecImpl<IoError> for Error {
    open spec fn obeys_from_spec() -> bool {
        true
    }

    open spec fn from_spec(err: IoError) -> Error {
        from_io(err)
    }
}

/// Recovers a truncation rather than wrapping it, so that the same condition
/// is the same variant whichever way it was met. Every other [`IoError`]
/// becomes [`Error::Io`], including one that happens to carry some other
/// [`Error`].
impl From<IoError> for Error {
    fn from(err: IoError) -> (e: Error) {
        unwrap_io(err)
    }
}

impl vstd::std_specs::convert::FromSpecImpl<Error> for IoError {
    open spec fn obeys_from_spec() -> bool {
        true
    }

    open spec fn from_spec(err: Error) -> IoError {
        into_io(err)
    }
}

/// [`Error::Io`] unwraps back to the error it carries; everything else
/// becomes a payload on an [`IoError`], under the kind the rest of the crate
/// uses for it.
impl From<Error> for IoError {
    fn from(err: Error) -> (io: IoError) {
        let kind = match &err {
            Error::SizeMismatch { .. } => ErrorKind::UnexpectedEof,
            // Not bad data: the stream itself is no longer usable.
            Error::WriterPoisoned => ErrorKind::BrokenPipe,
            _ => ErrorKind::InvalidData,
        };
        match err {
            Error::Io(io) => io,
            other => IoError { kind, detail: Detail::Carried(Box::new(other)) },
        }
    }
}

impl IoError {
    /// An I/O error with a message.
    pub fn new(kind: ErrorKind, message: &str) -> (err: IoError)
        ensures
            err.kind == kind,
            err.detail matches Detail::Message(text) && text@ == message@,
    {
        IoError { kind, detail: Detail::Message(message.to_owned()) }
    }

    /// What kind of failure this is.
    pub fn kind(&self) -> (kind: ErrorKind)
        ensures
            kind == self.kind,
    {
        self.kind
    }

    /// The error this one carries, if it carries one.
    pub fn carried(&self) -> (inner: Option<&Error>)
        ensures
            match self.detail {
                Detail::Carried(e) => inner == Some(&*e),
                _ => inner is None,
            },
    {
        match &self.detail {
            Detail::Carried(inner) => Some(&**inner),
            _ => None,
        }
    }

    /// What the error says.
    pub open spec fn text(self) -> Seq<char>
        decreases self,
    {
        match self.detail {
            Detail::Message(text) | Detail::BodyTooLarge(text) => text@,
            Detail::Carried(inner) => inner.text(),
        }
    }

    /// What the error says. It adds nothing to the error it carries.
    pub fn message(&self) -> (text: String)
        ensures
            text@ == self.text(),
        decreases self,
    {
        match &self.detail {
            Detail::Message(text) | Detail::BodyTooLarge(text) => text.clone(),
            Detail::Carried(inner) => (**inner).message(),
        }
    }
}

impl Error {
    /// What the error says.
    pub open spec fn text(self) -> Seq<char>
        decreases self,
    {
        match self {
            Error::Io(io) => io.text(),
            Error::InvalidMagic(magic) => "invalid magic header: expected \"NiFiFF3\", got "@ + byte_list(magic@),
            Error::InvalidAttribute(invalid) => "attribute is not valid UTF-8: "@ + invalid.reason@,
            Error::SizeMismatch { expected, actual } => "content size mismatch: header declares "@ + decimal(
                expected as nat,
            ) + " bytes, got "@ + decimal(actual as nat),
            Error::TrailingData(n) => decimal(n as nat) + " trailing bytes after flow file content"@,
            Error::TooManyAttributes { count, limit } => "attribute count "@ + decimal(count as nat)
                + " exceeds the limit of "@ + decimal(limit as nat),
            Error::AttributeTooLong { len, limit } => "attribute length "@ + decimal(len as nat)
                + " exceeds the limit of "@ + decimal(limit as nat) + " bytes"@,
            Error::HeaderTooLarge { len, limit } => "attribute bytes total "@ + decimal(len as nat)
                + ", which exceeds the limit of "@ + decimal(limit as nat) + " bytes"@,
            Error::WriterPoisoned =>
                "flow file writer is poisoned: an earlier write left a truncated flow file in the stream"@,
            Error::ContentTooLarge { size, limit } => "content size "@ + decimal(size as nat)
                + " exceeds the limit of "@ + decimal(limit as nat) + " bytes"@,
        }
    }

    /// What the error says.
    pub fn message(&self) -> (text: String)
        ensures
            text@ == self.text(),
        decreases self,
    {
        match self {
            Error::Io(io) => io.message(),
            Error::InvalidMagic(magic) => {
                "invalid magic header: expected \"NiFiFF3\", got ".to_owned().concat(byte_list_text(magic).as_str())
            },
            Error::InvalidAttribute(invalid) => {
                "attribute is not valid UTF-8: ".to_owned().concat(invalid.reason.as_str())
            },
            Error::SizeMismatch { expected, actual } => {
                "content size mismatch: header declares ".to_owned().concat(
                    decimal_text(*expected).as_str(),
                ).concat(" bytes, got ").concat(decimal_text(*actual).as_str())
            },
            Error::TrailingData(n) => decimal_text(*n).concat(" trailing bytes after flow file content"),
            Error::TooManyAttributes { count, limit } => {
                "attribute count ".to_owned().concat(decimal_text(*count as u64).as_str()).concat(
                    " exceeds the limit of ",
                ).concat(decimal_text(*limit as u64).as_str())
            },
            Error::AttributeTooLong { len, limit } => {
                "attribute length ".to_owned().concat(decimal_text(*len as u64).as_str()).concat(
                    " exceeds the limit of ",
                ).concat(decimal_text(*limit as u64).as_str()).concat(" bytes")
            },
            Error::HeaderTooLarge { len, limit } => {
                "attribute bytes total ".to_owned().concat(decimal_text(*len as u64).as_str()).concat(
                    ", which exceeds the limit of ",
                ).concat(decimal_text(*limit as u64).as_str()).concat(" bytes")
            },
            Error::WriterPoisoned =>
                "flow file writer is poisoned: an earlier write left a truncated flow file in the stream".to_owned(),
            Error::ContentTooLarge { size, limit } => {
                "content size ".to_owned().concat(decimal_text(*size).as_str()).concat(
                    " exceeds the limit of ",
                ).concat(decimal_text(*limit).as_str()).concat(" bytes")
            },
        }
    }
}

} // verus!
