//! The flow file itself.

use vstd::prelude::*;
use vstd::utf8::*;

use crate::attr;
use crate::attributes::AttributeMap;
use crate::attributes::Attributes;
use crate::builder::FlowFileBuilder;
use crate::decode::Outcome;
use crate::decode::{decode_header, reports};
use crate::error::{Error, Result};
use crate::format::{encode_header, encode_header_into, header_len, write_bytes};
use crate::format::{encodable, header_wire, sayable};
use crate::fragments::Fragments;
use crate::fragments::Split;
use crate::identity::fresh_uuid;
use crate::identity::is_uuid_text;
use crate::io::{ByteReader, Cursor};
use crate::limits::no_limits;
use crate::limits::Limits;
use crate::sync::parse_header;
use crate::text::{parse_number, string_from_utf8, InvalidNumber, InvalidUtf8};
use crate::text::{utf8_complaint, whole_number};

verus! {

/// A NiFi flow file: a content payload with associated string attributes.
///
/// The type is generic over the container of the content, `R`. Parsing
/// produces either an in-memory `FlowFile<Vec<u8>>` (via
/// [`FlowFile::from_bytes`]) or a lazy variant whose content is a size-limited
/// reader (via [`FlowFile::parse`]).
#[derive(Debug, PartialEq, Eq)]
pub struct FlowFile<R> {
    /// The length of the content in bytes, as declared in the header.
    pub size: u64,
    /// The attributes.
    pub attributes: Attributes,
    /// The container of the content.
    pub content: R,
}

/// An in-memory flow file, as the values it is made of.
#[verifier::ext_equal]
pub struct Model {
    pub size: u64,
    pub attributes: AttributeMap,
    pub content: Seq<u8>,
}

impl View for FlowFile<Vec<u8>> {
    type V = Model;

    open spec fn view(&self) -> Model {
        Model { size: self.size, attributes: self.attributes@, content: self.content@ }
    }
}

impl Model {
    /// The declared size is the size of the content, and the format can
    /// express the attributes.
    pub open spec fn serializable(self) -> bool {
        &&& self.size == self.content.len()
        &&& encodable(self.attributes)
    }

    /// The flow file on the wire: the header, then the content.
    pub open spec fn wire(self) -> Seq<u8> {
        header_wire(self.attributes, self.size) + self.content
    }
}

/// Flow files one after the other, with nothing between them.
pub open spec fn stream_wire(files: Seq<Model>) -> Seq<u8>
    decreases files.len(),
{
    if files.len() == 0 {
        Seq::empty()
    } else {
        files[0].wire() + stream_wire(files.drop_first())
    }
}

/// What becomes of `bytes` as exactly one flow file.
pub open spec fn parses_as(bytes: Seq<u8>, limits: Limits, r: Result<FlowFile<Vec<u8>>>) -> bool {
    match decode_header(bytes, limits) {
        Outcome::Refused { why, .. } => r matches Err(e) && reports(e, why),
        Outcome::Accepted { attributes, size, rest } => if rest.len() < size {
            r == Err::<FlowFile<Vec<u8>>, Error>(Error::SizeMismatch { expected: size, actual: rest.len() as u64 })
        } else if rest.len() > size {
            r == Err::<FlowFile<Vec<u8>>, Error>(Error::TrailingData((rest.len() - size) as u64))
        } else {
            r matches Ok(f) && f@ == (Model { size, attributes, content: rest })
        },
    }
}

impl<R: Clone> Clone for FlowFile<R> {
    fn clone(&self) -> (copy: FlowFile<R>)
        ensures
            copy.size == self.size,
            copy.attributes@ == self.attributes@,
            cloned(self.content, copy.content),
    {
        FlowFile { size: self.size, attributes: self.attributes.clone(), content: self.content.clone() }
    }
}

impl<'k, R> vstd::std_specs::core::IndexSpecImpl<&'k str> for FlowFile<R> {
    open spec fn index_req(&self, key: &&'k str) -> bool {
        self.attributes@.dom().contains(key@)
    }
}

/// The value of an attribute that is known to be set. Where it may not be, ask
/// with [`attribute`](FlowFile::attribute).
impl<'k, R> core::ops::Index<&'k str> for FlowFile<R> {
    type Output = str;

    fn index(&self, key: &'k str) -> (value: &str)
        ensures
            value@ == self.attributes@[key@],
    {
        match self.attributes.get(key) {
            Some(value) => value,
            None => vstd::pervasive::unreached(),
        }
    }
}

impl FlowFile<()> {
    /// Start building a flow file. See [`FlowFileBuilder`].
    #[must_use]
    pub fn builder() -> (builder: FlowFileBuilder)
        ensures
            builder@ == Map::<Seq<char>, Seq<char>>::empty(),
    {
        FlowFileBuilder::new()
    }
}

impl<R> FlowFile<R> {
    /// The length of the content in bytes, as declared in the header.
    ///
    /// This is the single source of truth for how many content bytes every
    /// serializer writes and every reader-based operation consumes.
    pub fn size(&self) -> (size: u64)
        ensures
            size == self.size,
    {
        self.size
    }

    /// The value of one attribute, if it is set.
    pub fn attribute(&self, key: &str) -> (value: Option<&str>)
        ensures
            match value {
                Some(text) => self.attributes@.dom().contains(key@) && self.attributes@[key@] == text@,
                None => !self.attributes@.dom().contains(key@),
            },
    {
        self.attributes.get(key)
    }

    /// The number that an attribute holds, if it is set.
    ///
    /// # Errors
    ///
    /// What the attribute says, if that is no number that a `u64` can hold.
    pub fn parse_attribute(&self, key: &str) -> (n: core::result::Result<Option<u64>, InvalidNumber>)
        ensures
            if self.attributes@.dom().contains(key@) {
                match whole_number(self.attributes@[key@]) {
                    Some(value) => n == Ok::<Option<u64>, InvalidNumber>(Some(value)),
                    None => n matches Err(invalid) && invalid.text@ == self.attributes@[key@],
                }
            } else {
                n == Ok::<Option<u64>, InvalidNumber>(None)
            },
    {
        match self.attributes.get(key) {
            Some(text) => match parse_number(text) {
                Some(value) => Ok(Some(value)),
                None => Err(InvalidNumber { text: text.to_owned() }),
            },
            None => Ok(None),
        }
    }

    /// The attributes of the flow file.
    pub fn attributes(&self) -> (attributes: &Attributes)
        ensures
            attributes == &self.attributes,
    {
        &self.attributes
    }

    /// Mutable access to the attributes of the flow file.
    pub fn attributes_mut(&mut self) -> (attributes: &mut Attributes)
        ensures
            *attributes == old(self).attributes,
            *final(self) == (FlowFile { attributes: *final(attributes), ..*old(self) }),
    {
        &mut self.attributes
    }

    /// The content container.
    pub fn content(&self) -> (content: &R)
        ensures
            content == &self.content,
    {
        &self.content
    }

    /// Mutable access to the content container.
    ///
    /// Use this to read a reader-backed flow file's content incrementally
    /// while keeping the flow file itself, and so its attributes.
    pub fn content_mut(&mut self) -> (content: &mut R)
        ensures
            *content == old(self).content,
            *final(self) == (FlowFile { content: *final(content), ..*old(self) }),
    {
        &mut self.content
    }

    /// Consume the flow file, returning the content container.
    pub fn into_content(self) -> (content: R)
        ensures
            content == self.content,
    {
        self.content
    }

    /// Consume the flow file, returning `(size, attributes, content)`.
    pub fn into_parts(self) -> (parts: (u64, Attributes, R))
        ensures
            parts == (self.size, self.attributes, self.content),
    {
        (self.size, self.attributes, self.content)
    }

    /// Build a flow file from the parts [`into_parts`](Self::into_parts)
    /// yields, for putting one back together after taking it apart.
    ///
    /// This takes `size` on trust: it must be the number of bytes `content`
    /// will yield.
    #[must_use]
    pub fn from_parts(size: u64, attributes: Attributes, content: R) -> (f: FlowFile<R>)
        ensures
            f == (FlowFile { size, attributes, content }),
    {
        FlowFile { size, attributes, content }
    }

    /// Transform the content container, keeping size and attributes.
    ///
    /// The declared [`size`](Self::size) is carried over unchanged, so `f` must
    /// produce a container holding the same number of bytes. For a transform
    /// that changes the length, chain [`with_size`](Self::with_size).
    #[must_use]
    pub fn map_content<T, F: FnOnce(R) -> T>(self, f: F) -> (mapped: FlowFile<T>)
        requires
            call_requires(f, (self.content,)),
        ensures
            mapped.size == self.size,
            mapped.attributes == self.attributes,
            call_ensures(f, (self.content,), mapped.content),
    {
        FlowFile { size: self.size, attributes: self.attributes, content: f(self.content) }
    }

    /// Transform the content container and its declared [`size`](Self::size)
    /// together, for a transform that changes the length.
    ///
    /// `f` returns the new container along with how many bytes it holds, so the
    /// size and the content cannot drift apart.
    #[must_use]
    pub fn map_content_sized<T, F: FnOnce(R) -> (T, u64)>(self, f: F) -> (mapped: FlowFile<T>)
        requires
            call_requires(f, (self.content,)),
        ensures
            mapped.attributes == self.attributes,
            call_ensures(f, (self.content,), (mapped.content, mapped.size)),
    {
        let (content, size) = f(self.content);
        FlowFile { size, attributes: self.attributes, content }
    }

    /// Declare a different content [`size`](Self::size), keeping attributes
    /// and content.
    #[must_use]
    pub fn with_size(self, size: u64) -> (f: FlowFile<R>)
        ensures
            f == (FlowFile { size, ..self }),
    {
        FlowFile { size, ..self }
    }

    /// Start building a new flow file carrying this one's attributes, and
    /// `uuid` as its [`uuid`](attr::UUID).
    pub fn derive_with_uuid(&self, uuid: &str) -> (builder: FlowFileBuilder)
        ensures
            builder@ == self.attributes@.insert(attr::UUID@, uuid@),
    {
        self.derive_keep_uuid().attribute(attr::UUID, uuid)
    }

    /// Start building a new flow file carrying this one's attributes.
    ///
    /// The [`uuid`](attr::UUID) attribute is replaced with a freshly generated
    /// one, because in NiFi it identifies a single flow file. Use
    /// [`derive_keep_uuid`](Self::derive_keep_uuid) to copy it verbatim. Every
    /// other attribute is inherited as it is.
    pub fn derive(&self) -> (builder: FlowFileBuilder)
        ensures
            exists|uuid: Seq<char>| #[trigger]
                is_uuid_text(uuid) && builder@ == self.attributes@.insert(attr::UUID@, uuid),
    {
        let uuid = fresh_uuid();
        let builder = self.derive_with_uuid(uuid.as_str());
        assert(is_uuid_text(uuid@) && builder@ == self.attributes@.insert(attr::UUID@, uuid@));
        builder
    }

    /// Start building a new flow file carrying this one's attributes, with
    /// its [`uuid`](attr::UUID) unchanged.
    ///
    /// Use it when the result represents the same flow file rather than a new
    /// one, such as a re-encoded or re-compressed payload.
    pub fn derive_keep_uuid(&self) -> (builder: FlowFileBuilder)
        ensures
            builder@ == self.attributes@,
    {
        FlowFileBuilder::with(self.attributes.clone())
    }

    /// Split this flow file into many, numbering the results with NiFi's
    /// fragment attributes. See [`Fragments`].
    pub fn fragments(&self) -> (fragments: Fragments)
        ensures
            is_uuid_text(fragments@.identifier),
            fragments@ == Split::start(self.attributes@, fragments@.identifier),
    {
        Fragments::new(&self.attributes)
    }

    /// How many bytes this flow file serializes to: the header plus
    /// [`size`](Self::size).
    ///
    /// It is computed from the attributes and the declared size, without
    /// serializing anything, and exact: it is the length
    /// [`to_bytes`](FlowFile::to_bytes) produces, and the number of bytes
    /// [`write_to`](FlowFile::write_to) writes. A flow file that declares so
    /// much content that a `u64` cannot say its length has the largest one
    /// there is.
    pub fn serialized_len(&self) -> (n: u64)
        ensures
            n == sayable(header_wire(self.attributes@, self.size).len() + self.size as nat),
    {
        let header: u64 = header_len(&self.attributes);
        assert(header == sayable(header_wire(self.attributes@, self.size).len()));
        header.saturating_add(self.size)
    }

    /// The serialized header (everything up to the content) for this flow file.
    pub fn header_bytes(&self) -> (header: Vec<u8>)
        requires
            encodable(self.attributes@),
        ensures
            header@ == header_wire(self.attributes@, self.size),
    {
        encode_header(&self.attributes, self.size)
    }
}

impl FlowFile<Vec<u8>> {
    /// Parse a flow file from a byte slice holding exactly one flow file.
    ///
    /// The declared content size is validated against the actual number of
    /// bytes present: too few bytes is a [`Error::SizeMismatch`], extra bytes
    /// after the content is a [`Error::TrailingData`]. To read several
    /// concatenated flow files from one buffer, use [`FlowFile::parse_next`]
    /// instead.
    ///
    /// # Errors
    ///
    /// [`Error::InvalidMagic`] or [`Error::InvalidAttribute`] for a malformed
    /// header, [`Error::Io`] for one that ends part-way through,
    /// [`Error::SizeMismatch`] if fewer content bytes are present than the
    /// header declares, and [`Error::TrailingData`] if more.
    pub fn from_bytes(bytes: &[u8]) -> (r: Result<FlowFile<Vec<u8>>>)
        ensures
            parses_as(bytes@, no_limits(), r),
    {
        Self::from_bytes_with_limits(bytes, Limits::unlimited())
    }

    /// Like [`from_bytes`](Self::from_bytes), but enforcing [`Limits`] on the
    /// header. Use this for untrusted input.
    ///
    /// # Errors
    ///
    /// As [`from_bytes`](Self::from_bytes), plus [`Error::TooManyAttributes`],
    /// [`Error::AttributeTooLong`], [`Error::HeaderTooLarge`] or
    /// [`Error::ContentTooLarge`] when the header exceeds `limits`.
    pub fn from_bytes_with_limits(bytes: &[u8], limits: Limits) -> (r: Result<FlowFile<Vec<u8>>>)
        ensures
            parses_as(bytes@, limits, r),
    {
        let mut reader = ByteReader::new(bytes);
        let (attributes, size) = match parse_header(&mut reader, None, limits) {
            Ok(header) => header,
            Err(e) => return Err(e),
        };
        let rest = reader.rest();
        let actual: u64 = rest.len() as u64;
        if actual < size {
            return Err(Error::SizeMismatch { expected: size, actual });
        }
        if actual > size {
            return Err(Error::TrailingData(actual - size));
        }
        Ok(FlowFile { size, attributes, content: vstd::slice::slice_to_vec(rest) })
    }

    /// Parse a flow file from a `Vec` holding exactly one, reusing its
    /// allocation for the content.
    ///
    /// The header is parsed and then removed from the front of `bytes`, so the
    /// content stays in the allocation it arrived in.
    ///
    /// # Errors
    ///
    /// As [`from_bytes`](Self::from_bytes).
    pub fn from_vec(bytes: Vec<u8>) -> (r: Result<FlowFile<Vec<u8>>>)
        ensures
            parses_as(bytes@, no_limits(), r),
    {
        Self::from_vec_with_limits(bytes, Limits::unlimited())
    }

    /// Like [`from_vec`](Self::from_vec), but enforcing [`Limits`] on the
    /// header. Use this for untrusted input.
    ///
    /// # Errors
    ///
    /// As [`from_bytes_with_limits`](Self::from_bytes_with_limits).
    pub fn from_vec_with_limits(bytes: Vec<u8>, limits: Limits) -> (r: Result<FlowFile<Vec<u8>>>)
        ensures
            parses_as(bytes@, limits, r),
    {
        let mut bytes = bytes;
        let ghost all = bytes@;
        let (attributes, size, left) = {
            let mut reader = ByteReader::new(bytes.as_slice());
            let (attributes, size) = match parse_header(&mut reader, None, limits) {
                Ok(header) => header,
                Err(e) => return Err(e),
            };
            let left: usize = reader.rest().len();
            (attributes, size, left)
        };
        proof {
            crate::decode::lemma_rest_is_suffix(all, limits);
        }
        let actual: u64 = left as u64;
        if actual < size {
            return Err(Error::SizeMismatch { expected: size, actual });
        }
        if actual > size {
            return Err(Error::TrailingData(actual - size));
        }
        // Shifts the content down over the header rather than allocating a
        // second buffer for it.
        let header: usize = bytes.len() - left;
        shift_down(&mut bytes, header);
        Ok(FlowFile { size, attributes, content: bytes })
    }

    /// The content as text.
    ///
    /// # Errors
    ///
    /// The bytes and what is wrong with them, if they are not UTF-8.
    pub fn content_str(&self) -> (text: core::result::Result<String, InvalidUtf8>)
        ensures
            match text {
                Ok(s) => valid_utf8(self.content@) && encode_utf8(s@) == self.content@,
                Err(invalid) => {
                    &&& !valid_utf8(self.content@)
                    &&& invalid.bytes@ == self.content@
                    &&& invalid.reason@ == utf8_complaint(self.content@)
                },
            },
    {
        string_from_utf8(self.content.clone())
    }

    /// Serialize the flow file to the binary V3 format.
    ///
    /// This writes the whole flow file, header and all.
    /// [`into_memory`](FlowFile::into_memory) does something different: it
    /// reads a reader-backed content into memory, and serializes nothing.
    #[must_use]
    pub fn to_bytes(&self) -> (bytes: Vec<u8>)
        requires
            self@.serializable(),
        ensures
            bytes@ == self@.wire(),
    {
        let mut buf: Vec<u8> = Vec::new();
        encode_header_into(&mut buf, &self.attributes, self.size);
        write_bytes(&mut buf, self.content.as_slice());
        assert(buf@ =~= self@.wire());
        buf
    }

    /// Transform in-memory content, deriving the new [`size`](Self::size) from
    /// what `f` returns.
    #[must_use]
    pub fn map_bytes<F: FnOnce(Vec<u8>) -> Vec<u8>>(self, f: F) -> (mapped: FlowFile<Vec<u8>>)
        requires
            call_requires(f, (self.content,)),
        ensures
            mapped.attributes == self.attributes,
            mapped.size == mapped.content@.len(),
            call_ensures(f, (self.content,), mapped.content),
    {
        let content = f(self.content);
        FlowFile { size: content.len() as u64, attributes: self.attributes, content }
    }

    /// Wrap the content in a [`Cursor`], which reads it.
    pub fn into_reader(self) -> (f: FlowFile<Cursor>)
        ensures
            f.size == self.size,
            f.attributes == self.attributes,
            crate::io::Reader::pending(&f.content) == self.content@,
            crate::io::Reader::failure(&f.content) is None,
    {
        FlowFile { size: self.size, attributes: self.attributes, content: Cursor::new(self.content) }
    }
}

/// Drop the first `n` bytes, moving the others down.
fn shift_down(bytes: &mut Vec<u8>, n: usize)
    requires
        n <= old(bytes)@.len(),
    ensures
        final(bytes)@ == old(bytes)@.skip(n as int),
{
    let ghost start = bytes@;
    let len: usize = bytes.len();
    let left: usize = len - n;
    let mut i: usize = 0;
    while i < left
        invariant
            i <= left,
            left + n == len,
            bytes@.len() == len,
            start.len() == len,
            forall|j: int| 0 <= j < i ==> bytes@[j] == start[j + n],
            forall|j: int| i <= j < len ==> bytes@[j] == start[j],
        decreases left - i,
    {
        let byte: u8 = bytes[i + n];
        bytes.set(i, byte);
        i = i + 1;
    }
    bytes.truncate(left);
    assert(bytes@ =~= start.skip(n as int));
}

} // verus!
