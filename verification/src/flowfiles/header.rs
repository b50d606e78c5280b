//! The header of a flow file: its attributes, and the size of its content.

use vstd::prelude::*;

use crate::attributes::Attributes;
use crate::attributes::{sorted_entries, AttributeMap, Entries};
use crate::error::{ErrorKind, IoError};
use crate::error::Detail;
use crate::format::{be_bytes, encodable_text, field_len_wire, magic, text_wire};
use crate::format::{write_be, write_bytes, write_field_len, write_string, MAGIC};
use crate::io::Writer;
use crate::io::{accepts, spend};

verus! {

/// Representation of the header of a NiFi Flow File v3.
///
/// A NiFi Flow File v3 header contains, when decoded, all the attributes attached to the content,
/// as well as the size in bytes of the content. The binary header format is (if you care):
///
/// ```text
/// Magic Bytes:     "NiFiFF3" (7 bytes)
/// Attribute Count: u16 or u16+u32 (if count >= 65535)
/// Attributes:      Repeated (key_len: u16/u16+u32, key: bytes, value_len: u16/u16+u32, value: bytes)
/// Content Size:    u64
/// ```
#[derive(Debug, PartialEq, Eq)]
pub struct FlowFileHeader {
    pub size: u64,
    pub attributes: Attributes,
}

impl FlowFileHeader {
    /// Create a new flow file header.
    ///
    /// The size is the number of bytes in the content of the flow file, not including the
    /// size of this header itself.
    #[must_use]
    pub fn new(size: u64, attributes: Attributes) -> (header: FlowFileHeader)
        ensures
            header.size == size,
            header.attributes == attributes,
    {
        FlowFileHeader { size, attributes }
    }

    /// Get the content length in bytes of the flow file this header describes.
    ///
    /// Note that this is not how many bytes may be left in the related content, but rather how
    /// many bytes the content is expected to contain in total.
    #[must_use]
    pub fn size(&self) -> (size: u64)
        ensures
            size == self.size,
    {
        self.size
    }

    /// Return `true` if the flow file self-reports to be empty (content size is 0).
    #[must_use]
    pub fn is_empty(&self) -> (yes: bool)
        ensures
            yes == (self.size == 0),
    {
        self.size == 0
    }

    /// Get an immutable reference to all attributes contained in the flow file.
    #[must_use]
    pub fn attributes(&self) -> (attributes: &Attributes)
        ensures
            *attributes == self.attributes,
    {
        &self.attributes
    }

    /// Get a mutable reference to all attributes contained in the flow file.
    ///
    /// This allows modifying the attributes after the header is created.
    #[must_use]
    pub fn attributes_mut(&mut self) -> (attributes: &mut Attributes)
        ensures
            *attributes == old(self).attributes,
            *final(self) == (FlowFileHeader { size: old(self).size, attributes: *final(attributes) }),
    {
        &mut self.attributes
    }
}

impl Clone for FlowFileHeader {
    fn clone(&self) -> (copy: FlowFileHeader)
        ensures
            copy.size == self.size,
            copy.attributes@ == self.attributes@,
    {
        FlowFileHeader { size: self.size, attributes: self.attributes.clone() }
    }
}

impl Default for FlowFileHeader {
    fn default() -> (header: FlowFileHeader)
        ensures
            header.size == 0,
            header.attributes@ == Map::<Seq<char>, Seq<char>>::empty(),
    {
        FlowFileHeader { size: 0, attributes: Attributes::new() }
    }
}

impl vstd::std_specs::convert::FromSpecImpl<(u64, Attributes)> for FlowFileHeader {
    open spec fn obeys_from_spec() -> bool {
        true
    }

    open spec fn from_spec(parts: (u64, Attributes)) -> FlowFileHeader {
        FlowFileHeader { size: parts.0, attributes: parts.1 }
    }
}

impl From<(u64, Attributes)> for FlowFileHeader {
    fn from(parts: (u64, Attributes)) -> (header: FlowFileHeader) {
        FlowFileHeader { size: parts.0, attributes: parts.1 }
    }
}

/// The attributes on the wire, as far as a field length can express them, and
/// whether that is all of them.
pub open spec fn expressible(entries: Entries) -> (Seq<u8>, bool)
    decreases entries.len(),
{
    if entries.len() == 0 {
        (Seq::empty(), true)
    } else {
        let (before, whole) = expressible(entries.drop_last());
        let (key, value) = entries.last();
        if !whole {
            (before, false)
        } else if !encodable_text(key) {
            (before, false)
        } else if !encodable_text(value) {
            (before + text_wire(key), false)
        } else {
            (before + text_wire(key) + text_wire(value), true)
        }
    }
}

/// A header on the wire, up to the first thing that a field length cannot
/// express, and whether that is all of it.
pub open spec fn header_attempt(attributes: AttributeMap, size: u64) -> (Seq<u8>, bool) {
    if attributes.len() > u32::MAX {
        (magic(), false)
    } else {
        let (entries, whole) = expressible(sorted_entries(attributes));
        let start = magic() + field_len_wire(attributes.len()) + entries;
        if whole {
            (start + be_bytes(size as nat, 8), true)
        } else {
            (start, false)
        }
    }
}

/// What stays cut short stays so, whatever follows.
proof fn lemma_cut_short(entries: Entries, i: int)
    requires
        0 <= i <= entries.len(),
        !expressible(entries.take(i)).1,
    ensures
        expressible(entries) == expressible(entries.take(i)),
    decreases entries.len() - i,
{
    if i < entries.len() {
        assert(entries.take(i + 1).drop_last() =~= entries.take(i));
        lemma_cut_short(entries, i + 1);
    } else {
        assert(entries.take(i) =~= entries);
    }
}

/// Why a header cannot be written.
pub open spec fn too_long(e: IoError) -> bool {
    &&& e.kind == ErrorKind::Other
    &&& e.detail matches Detail::Message(text)
    &&& text@ == "Field length exceeds u32::MAX"@
}

/// A header on the wire, up to the first thing that a field length cannot
/// express, and whether that is all of it.
pub fn attempt_header(attributes: &Attributes, size: u64) -> (attempt: (Vec<u8>, bool))
    ensures
        (attempt.0@, attempt.1) == header_attempt(attributes@, size),
{
    let mut buf: Vec<u8> = Vec::new();
    write_bytes(&mut buf, &MAGIC);
    assert(buf@ =~= magic());
    let n: usize = attributes.len();
    if n as u64 > u32::MAX as u64 {
        return (buf, false);
    }
    write_field_len(&mut buf, n);
    let ghost entries = attributes.entries();
    let ghost start = magic() + field_len_wire(n as nat);
    let mut i: usize = 0;
    assert(entries.take(0) =~= Seq::empty());
    assert(entries.take(n as int) =~= entries);
    assert(buf@ =~= start + expressible(entries.take(0)).0);
    while i < n
        invariant
            i <= n,
            n == entries.len(),
            entries == attributes.entries(),
            entries == sorted_entries(attributes@),
            n == attributes@.len(),
            n <= u32::MAX,
            start == magic() + field_len_wire(n as nat),
            expressible(entries.take(i as int)).1,
            buf@ == start + expressible(entries.take(i as int)).0,
        decreases n - i,
    {
        let ghost before = expressible(entries.take(i as int)).0;
        proof {
            assert(entries.take(i + 1).drop_last() =~= entries.take(i as int));
            if !expressible(entries.take(i + 1)).1 {
                lemma_cut_short(entries, i + 1);
            }
        }
        let key = attributes.key_at(i);
        let value = attributes.value_at(i);
        if key.as_bytes().len() as u64 > u32::MAX as u64 {
            return (buf, false);
        }
        write_string(&mut buf, key);
        assert(buf@ =~= start + (before + text_wire(key@)));
        if value.as_bytes().len() as u64 > u32::MAX as u64 {
            return (buf, false);
        }
        write_string(&mut buf, value);
        assert(buf@ =~= start + (before + text_wire(key@) + text_wire(value@)));
        i = i + 1;
    }
    write_be(&mut buf, size, 8);
    (buf, true)
}

/// What writing a header comes to, for a writer with this budget: the bytes it
/// takes, and how it ends.
pub open spec fn header_written(
    attributes: AttributeMap,
    size: u64,
    budget: Option<(nat, IoError)>,
    bytes: Seq<u8>,
    r: core::result::Result<(), IoError>,
) -> bool {
    let (wire, whole) = header_attempt(attributes, size);
    if !accepts(budget, wire.len()) {
        let (room, refusal) = budget->0;
        bytes == wire.take(room as int) && r == Err::<(), IoError>(refusal)
    } else if whole {
        bytes == wire && r is Ok
    } else {
        &&& bytes == wire
        &&& r matches Err(e)
        &&& too_long(e)
    }
}

/// Write a header in NiFi Flow File v3 binary format.
pub fn write_flowfile_header<W: Writer>(writer: &mut W, attributes: &Attributes, content_len: u64) -> (r:
    core::result::Result<(), IoError>)
    ensures
        ({
            let before = (*old(writer)).written();
            let after = (*final(writer)).written();
            &&& before.is_prefix_of(after)
            &&& header_written(
                attributes@,
                content_len,
                (*old(writer)).budget(),
                after.skip(before.len() as int),
                r,
            )
            &&& r is Ok ==> (*final(writer)).budget() == spend(
                (*old(writer)).budget(),
                header_attempt(attributes@, content_len).0.len(),
            )
        }),
{
    let (bytes, whole) = attempt_header(attributes, content_len);
    let ghost before = (*writer).written();
    match writer.write_all(bytes.as_slice()) {
        Ok(_) => {
            assert((*writer).written().skip(before.len() as int) =~= bytes@);
            if whole {
                Ok(())
            } else {
                Err(IoError::new(ErrorKind::Other, "Field length exceeds u32::MAX"))
            }
        },
        Err(e) => {
            proof {
                let (room, _) = (*old(writer)).budget()->0;
                assert((*writer).written().skip(before.len() as int) =~= bytes@.take(room as int));
            }
            Err(e)
        },
    }
}

impl FlowFileHeader {
    /// Serialize the header into the provided writer in NiFi Flow File v3 binary format.
    ///
    /// This writes the following to the writer:
    /// 1. Magic bytes: `b"NiFiFF3"` (7 bytes)
    /// 2. Attribute count: either `u16` (if < 65535) or `u16::MAX` followed by `u32`
    /// 3. For each attribute: key length, key bytes, value length, value bytes
    /// 4. Content size as `u64`
    ///
    /// # Errors
    ///
    /// This can occur if:
    /// - The writer fails to write any part of the header.
    /// - The attribute map contains more than `u32::MAX` entries.
    /// - Any attribute key or value length exceeds `u32::MAX`.
    pub fn serialize_header_into<W: Writer>(&self, writer: &mut W) -> (r: core::result::Result<(), IoError>)
        ensures
            ({
                let before = (*old(writer)).written();
                let after = (*final(writer)).written();
                &&& before.is_prefix_of(after)
                &&& header_written(
                    self.attributes@,
                    self.size,
                    (*old(writer)).budget(),
                    after.skip(before.len() as int),
                    r,
                )
                &&& r is Ok ==> (*final(writer)).budget() == spend(
                    (*old(writer)).budget(),
                    header_attempt(self.attributes@, self.size).0.len(),
                )
            }),
    {
        write_flowfile_header(writer, &self.attributes, self.size)
    }
}

} // verus!
