//! Flow files as JSON describes them: the size, the attributes in sorted key
//! order, and the content in base64.
//!
//! [`Repr`] is that description as plain values. Turning it into text and back
//! is left to whoever holds a JSON library.

use vstd::prelude::*;
use vstd::string::*;

use base64::engine::GeneralPurpose;
use base64::write::EncoderStringWriter;

use crate::attributes::Attributes;
use crate::error::from_io;
use crate::error::{Error, IoError};
use crate::flow_file::FlowFile;
use crate::flow_file::Model;
use crate::io::skip_up_to;
use crate::io::{copy, Reader, Writer};
use crate::sync::read_outcome;
use crate::text::decimal;
use crate::text::decimal_text;

verus! {

/// Why a text is not base64.
#[derive(Debug, Clone, Copy, PartialEq, Eq, Structural)]
pub enum Base64Error {
    /// At this place stands a byte that does not belong there.
    InvalidByte(usize, u8),
    /// No text of this length is base64.
    InvalidLength(usize),
    /// At this place stands a last symbol with bits left over.
    InvalidLastSymbol(usize, u8),
    /// The padding is missing, or too much.
    InvalidPadding,
}

impl Base64Error {
    /// What the error says.
    pub open spec fn text(self) -> Seq<char> {
        match self {
            Base64Error::InvalidByte(index, byte) => "Invalid symbol "@ + decimal(byte as nat) + ", offset "@ + decimal(
                index as nat,
            ) + "."@,
            Base64Error::InvalidLength(len) => "Invalid input length: "@ + decimal(len as nat),
            Base64Error::InvalidLastSymbol(index, byte) => "Invalid last symbol "@ + decimal(byte as nat) + ", offset "@
                + decimal(index as nat) + "."@,
            Base64Error::InvalidPadding => "Invalid padding"@,
        }
    }

    /// What the error says.
    pub fn message(&self) -> (text: String)
        ensures
            text@ == self.text(),
    {
        match self {
            Base64Error::InvalidByte(index, byte) => "Invalid symbol ".to_owned().concat(
                decimal_text(*byte as u64).as_str(),
            ).concat(", offset ").concat(decimal_text(*index as u64).as_str()).concat("."),
            Base64Error::InvalidLength(len) => "Invalid input length: ".to_owned().concat(
                decimal_text(*len as u64).as_str(),
            ),
            Base64Error::InvalidLastSymbol(index, byte) => "Invalid last symbol ".to_owned().concat(
                decimal_text(*byte as u64).as_str(),
            ).concat(", offset ").concat(decimal_text(*index as u64).as_str()).concat("."),
            Base64Error::InvalidPadding => "Invalid padding".to_owned(),
        }
    }
}

/// Bytes in base64: the standard alphabet, padded.
pub uninterp spec fn base64_text(bytes: Seq<u8>) -> Seq<char>;

/// The bytes that a text in base64 stands for, or why it is not one.
pub uninterp spec fn base64_bytes(text: Seq<char>) -> core::result::Result<Seq<u8>, Base64Error>;

/// Bytes in base64.
///
/// Calls `encode` on `base64`'s `STANDARD` engine. It is taken on trust that
/// the text depends on nothing but the bytes, and that decoding it gives them
/// back. The text has four characters for every three bytes begun, and has to
/// fit in memory.
#[verifier::external_body]
fn encode(bytes: &[u8]) -> (text: String)
    requires
        (bytes@.len() + 2) / 3 * 4 <= isize::MAX,
    ensures
        text@ == base64_text(bytes@),
        base64_bytes(text@) is Ok,
        base64_bytes(text@)->Ok_0 == bytes@,
{
    base64::Engine::encode(&base64::engine::general_purpose::STANDARD, bytes)
}

/// The bytes that a text in base64 stands for.
///
/// Calls `decode` on `base64`'s `STANDARD` engine. It is taken on trust that
/// what comes of it depends on nothing but the text.
#[verifier::external_body]
fn decode(text: &str) -> (bytes: core::result::Result<Vec<u8>, Base64Error>)
    ensures
        match bytes {
            Ok(b) => base64_bytes(text@) matches Ok(plain) && plain == b@,
            Err(e) => base64_bytes(text@) matches Err(why) && why == e,
        },
{
    base64::Engine::decode(&base64::engine::general_purpose::STANDARD, text.as_bytes()).map_err(
        |err|
            match err {
                base64::DecodeError::InvalidByte(index, byte) => Base64Error::InvalidByte(index, byte),
                base64::DecodeError::InvalidLength(len) => Base64Error::InvalidLength(len),
                base64::DecodeError::InvalidLastSymbol(index, byte) => Base64Error::InvalidLastSymbol(index, byte),
                base64::DecodeError::InvalidPadding => Base64Error::InvalidPadding,
            },
    )
}

/// Text in base64 that grows as bytes come in.
///
/// Holds an `EncoderStringWriter` of `base64`, whose bounds on its parameters
/// keep it from standing in a field that Verus reads.
#[verifier::external_body]
pub struct Base64Encoder {
    inner: EncoderStringWriter<'static, GeneralPurpose, String>,
}

/// The bytes that an encoder has taken.
pub uninterp spec fn base64_taken(encoder: Base64Encoder) -> Seq<u8>;

/// An encoder that has taken nothing.
///
/// Calls `EncoderStringWriter::new` with `base64`'s `STANDARD` engine. It is
/// taken on trust that the encoder starts out without any bytes.
#[verifier::external_body]
fn new_encoder() -> (encoder: Base64Encoder)
    ensures
        base64_taken(encoder) == Seq::<u8>::empty(),
{
    Base64Encoder { inner: EncoderStringWriter::new(&base64::engine::general_purpose::STANDARD) }
}

/// Hand an encoder more bytes.
///
/// Calls `write_all` on an `EncoderStringWriter`. It is taken on trust that it
/// takes all of them, after those it took before: the string it appends to
/// never refuses any.
#[verifier::external_body]
fn encode_more(encoder: &mut Base64Encoder, bytes: &[u8])
    ensures
        base64_taken(*final(encoder)) == base64_taken(*old(encoder)) + bytes@,
{
    std::io::Write::write_all(&mut encoder.inner, bytes).expect("a string takes everything")
}

/// What an encoder took, in base64.
///
/// Calls `into_inner` on an `EncoderStringWriter`. It is taken on trust that
/// the text is that of all the bytes at once, and that decoding it gives them
/// back.
#[verifier::external_body]
fn encoded(encoder: Base64Encoder) -> (text: String)
    ensures
        text@ == base64_text(base64_taken(encoder)),
        base64_bytes(text@) is Ok,
        base64_bytes(text@)->Ok_0 == base64_taken(encoder),
{
    encoder.inner.into_inner()
}

impl Writer for Base64Encoder {
    open spec fn written(&self) -> Seq<u8> {
        base64_taken(*self)
    }

    open spec fn flushed(&self) -> Seq<u8> {
        base64_taken(*self)
    }

    open spec fn budget(&self) -> Option<(nat, IoError)> {
        None
    }

    open spec fn flush_failure(&self) -> Option<IoError> {
        None
    }

    fn write_all(&mut self, bytes: &[u8]) -> (r: core::result::Result<(), IoError>) {
        encode_more(self, bytes);
        Ok(())
    }

    fn flush(&mut self) -> (r: core::result::Result<(), IoError>) {
        Ok(())
    }
}

/// A flow file as JSON describes it.
#[derive(Debug)]
pub struct Repr {
    /// The size of the content. May be left out.
    pub size: Option<u64>,
    /// The attributes.
    pub attributes: Attributes,
    /// The content, in base64.
    pub content: String,
}

/// Why a description is not of a flow file.
#[derive(Debug, Clone, Copy, PartialEq, Eq, Structural)]
pub enum ReprError {
    /// The content is not base64.
    Content(Base64Error),
    /// The size is not that of the content.
    Size {
        /// The size in the description.
        size: u64,
        /// The size of the content.
        actual: usize,
    },
}

impl ReprError {
    /// What the error says.
    pub open spec fn text(self) -> Seq<char> {
        match self {
            ReprError::Content(e) => e.text(),
            ReprError::Size { size, actual } => "size field ("@ + decimal(size as nat)
                + ") does not match decoded content length ("@ + decimal(actual as nat) + ")"@,
        }
    }

    /// What the error says.
    pub fn message(&self) -> (text: String)
        ensures
            text@ == self.text(),
    {
        match self {
            ReprError::Content(e) => e.message(),
            ReprError::Size { size, actual } => "size field (".to_owned().concat(
                decimal_text(*size).as_str(),
            ).concat(") does not match decoded content length (").concat(
                decimal_text(*actual as u64).as_str(),
            ).concat(")"),
        }
    }
}

impl Repr {
    /// This describes a flow file with these attributes and this content, and
    /// the content can be had back from it.
    pub open spec fn describes(self, f: Model) -> bool {
        &&& self.size == Some(f.size)
        &&& self.attributes@ == f.attributes
        &&& self.content@ == base64_text(f.content)
        &&& base64_bytes(self.content@) == Ok::<Seq<u8>, Base64Error>(f.content)
    }

    /// What becomes of the description.
    pub open spec fn comes_to(self, r: core::result::Result<FlowFile<Vec<u8>>, ReprError>) -> bool {
        match base64_bytes(self.content@) {
            Err(e) => r == Err::<FlowFile<Vec<u8>>, ReprError>(ReprError::Content(e)),
            Ok(content) => if self.size matches Some(size) && size != content.len() {
                r == Err::<FlowFile<Vec<u8>>, ReprError>(
                    ReprError::Size { size: self.size->0, actual: content.len() as usize },
                )
            } else {
                &&& r matches Ok(f)
                &&& f@ == (Model { size: content.len() as u64, attributes: self.attributes@, content })
            },
        }
    }

    /// The flow file that is described. The size may be left out; when present
    /// it must be that of the content.
    pub fn into_flow_file(self) -> (r: core::result::Result<FlowFile<Vec<u8>>, ReprError>)
        ensures
            self.comes_to(r),
    {
        match decode(self.content.as_str()) {
            Err(e) => Err(ReprError::Content(e)),
            Ok(content) => self.with_content(content),
        }
    }

    /// The flow file that is described, given its decoded content.
    pub fn with_content(self, content: Vec<u8>) -> (r: core::result::Result<FlowFile<Vec<u8>>, ReprError>)
        ensures
            if self.size matches Some(size) && size != content@.len() {
                r == Err::<FlowFile<Vec<u8>>, ReprError>(
                    ReprError::Size { size: self.size->0, actual: content@.len() as usize },
                )
            } else {
                &&& r matches Ok(f)
                &&& f.size == content@.len()
                &&& f.attributes == self.attributes
                &&& f.content == content
            },
    {
        let actual: usize = content.len();
        match self.size {
            Some(size) => if size != actual as u64 {
                return Err(ReprError::Size { size, actual });
            },
            None => {},
        }
        Ok(FlowFile { size: actual as u64, attributes: self.attributes, content })
    }
}

impl FlowFile<Vec<u8>> {
    /// Describe the flow file. The content in base64 has four characters for
    /// every three bytes begun, and has to fit in memory.
    pub fn to_repr(&self) -> (repr: Repr)
        requires
            self.size == self.content@.len(),
            (self.content@.len() + 2) / 3 * 4 <= isize::MAX,
        ensures
            repr.describes(self@),
    {
        Repr {
            size: Some(self.size),
            attributes: self.attributes.clone(),
            content: encode(self.content.as_slice()),
        }
    }
}

/// A reader-backed flow file, to be described.
///
/// Streams the content through the base64 encoder as it goes, so what is held
/// in memory is the encoded text, not the content *and* its encoding.
///
/// Describing it consumes the content, so it works once. A second attempt
/// reads nothing and fails rather than describing a flow file with the wrong
/// content.
#[derive(Debug)]
pub struct StreamingFlowFile<R> {
    /// The flow file, with whatever is left of its content.
    pub flow_file: FlowFile<R>,
}

impl<R> StreamingFlowFile<R> {
    /// Wrap a flow file to describe it.
    #[must_use]
    pub fn new(flow_file: FlowFile<R>) -> (wrapped: StreamingFlowFile<R>)
        ensures
            wrapped.flow_file == flow_file,
    {
        StreamingFlowFile { flow_file }
    }

    /// Unwrap, giving back the flow file and whatever is left of its content.
    #[must_use]
    pub fn into_inner(self) -> (flow_file: FlowFile<R>)
        ensures
            flow_file == self.flow_file,
    {
        self.flow_file
    }
}

/// What describing a flow file comes to when its content has to be read for
/// it: `r`, and the flow file that is left, with the rest of its content.
pub open spec fn described_by_reading<R: Reader>(
    flow_file: FlowFile<R>,
    r: core::result::Result<Repr, Error>,
    after: FlowFile<R>,
) -> bool {
    &&& after.size == flow_file.size
    &&& after.attributes == flow_file.attributes
    &&& after.content.pending() == skip_up_to(flow_file.content.pending(), flow_file.size)
    &&& after.content.failure() == flow_file.content.failure()
    &&& match read_outcome(flow_file.content.pending(), flow_file.content.failure(), flow_file.size) {
        Ok(content) => {
            &&& r matches Ok(repr)
            &&& repr.describes(Model { size: flow_file.size, attributes: flow_file.attributes@, content })
        },
        Err(e) => if flow_file.content.failure() is Some {
            r == Err::<Repr, Error>(Error::Io(e))
        } else {
            r == Err::<Repr, Error>(from_io(e))
        },
    }
}

impl<R: Reader> StreamingFlowFile<R> {
    /// Describe the flow file, reading its content.
    ///
    /// # Errors
    ///
    /// Whatever reading the content fails with, and [`Error::SizeMismatch`] if
    /// there is less of it than the declared size.
    pub fn to_repr(&mut self) -> (r: core::result::Result<Repr, Error>)
        ensures
            described_by_reading(old(self).flow_file, r, final(self).flow_file),
    {
        let size: u64 = self.flow_file.size;
        let mut encoder = new_encoder();
        let copied = copy(&mut self.flow_file.content, size, &mut encoder);
        match copied {
            Err(e) => Err(Error::Io(e)),
            Ok(read) => {
                if read != size {
                    return Err(Error::SizeMismatch { expected: size, actual: read });
                }
                proof {
                    let pending = old(self).flow_file.content.pending();
                    assert(base64_taken(encoder) =~= pending.take(size as int));
                }
                Ok(
                    Repr {
                        size: Some(size),
                        attributes: self.flow_file.attributes.clone(),
                        content: encoded(encoder),
                    },
                )
            },
        }
    }
}

} // verus!
