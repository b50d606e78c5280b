//! Flow files over any kind of content, and how they are built.

use vstd::prelude::*;

use crate::attributes::Attributes;
use crate::error::IoError;
use crate::flowfiles::header::FlowFileHeader;
use crate::flowfiles::header::{header_attempt, header_written};
use crate::io::{copy, read_all, Cursor, Reader, Writer};
use crate::io::{copy_outcome, skip_up_to, spend, take_up_to};

verus! {

/// A NiFi Flow File v3.
///
/// This is generic over the type that holds the content. The header is kept in memory as a
/// [`FlowFileHeader`].
#[derive(Debug)]
pub struct FlowFile<C> {
    pub header: FlowFileHeader,
    /// The content of the flow file.
    pub content: C,
}

impl FlowFile<()> {
    /// Create an empty flow file with no attributes.
    #[must_use]
    pub fn empty() -> (f: FlowFile<()>)
        ensures
            f.header.size == 0,
            f.header.attributes@ == Map::<Seq<char>, Seq<char>>::empty(),
    {
        FlowFile::empty_with_attributes(Attributes::new())
    }

    /// Create an empty flow file with the given attributes.
    #[must_use]
    pub fn empty_with_attributes(attributes: Attributes) -> (f: FlowFile<()>)
        ensures
            f.header.size == 0,
            f.header.attributes == attributes,
    {
        FlowFile { header: FlowFileHeader::new(0, attributes), content: () }
    }

    /// Start building a new flow file using the builder pattern.
    ///
    /// The builder requires setting `size`, `attributes`, and `content` before calling the
    /// `build()` method.
    #[must_use]
    pub fn builder() -> (builder: FlowFileBuilder<Unset, Unset, Unset>)
        ensures
            builder == (FlowFileBuilder { size: Unset, attributes: Unset, content: Unset }),
    {
        FlowFileBuilder { size: Unset, attributes: Unset, content: Unset }
    }
}

impl<C> FlowFile<C> {
    /// Create a new flow file with the given size, attributes, and content.
    ///
    /// Note that in order for the resulting flow file to be well defined, the provided size must
    /// match the actual number of bytes in the content.
    pub fn new(size: u64, attributes: Attributes, content: C) -> (f: FlowFile<C>)
        ensures
            f.header.size == size,
            f.header.attributes == attributes,
            f.content == content,
    {
        FlowFile { header: FlowFileHeader::new(size, attributes), content }
    }

    /// Get a reference to the flow file header.
    pub fn header(&self) -> (header: &FlowFileHeader)
        ensures
            *header == self.header,
    {
        &self.header
    }

    /// Get a mutable reference to the flow file header.
    pub fn header_mut(&mut self) -> (header: &mut FlowFileHeader)
        ensures
            *header == old(self).header,
            *final(self) == (FlowFile { header: *final(header), content: old(self).content }),
    {
        &mut self.header
    }

    /// Get a reference to the content of the flow file.
    pub fn content(&self) -> (content: &C)
        ensures
            *content == self.content,
    {
        &self.content
    }

    /// Get a mutable reference to the content of the flow file.
    pub fn content_mut(&mut self) -> (content: &mut C)
        ensures
            *content == old(self).content,
            *final(self) == (FlowFile { header: old(self).header, content: *final(content) }),
    {
        &mut self.content
    }

    /// Decompose the flow file into its header and content components.
    pub fn into_parts(self) -> (parts: (FlowFileHeader, C))
        ensures
            parts == (self.header, self.content),
    {
        (self.header, self.content)
    }
}

impl<R: Reader> FlowFile<R> {
    /// Serialize the flow file into a writer.
    ///
    /// This will write the header using [`FlowFileHeader::serialize_header_into`], followed by
    /// all the bytes of the content.
    ///
    /// # Errors
    ///
    /// Whatever the header, the content or the writer gives rise to.
    pub fn serialize_into<W: Writer>(&mut self, w: &mut W) -> (r: core::result::Result<(), IoError>)
        ensures
            final(self).header == old(self).header,
            ({
                let before = (*old(w)).written();
                let after = (*final(w)).written();
                let (wire, whole) = header_attempt(old(self).header.attributes@, old(self).header.size);
                let budget = (*old(w)).budget();
                &&& before.is_prefix_of(after)
                &&& if whole && crate::io::accepts(budget, wire.len()) {
                    let (bytes, copied) = copy_outcome(
                        old(self).content.pending(),
                        old(self).content.failure(),
                        u64::MAX,
                        spend(budget, wire.len()),
                    );
                    &&& after == before + wire + bytes
                    &&& match copied {
                        Ok(_) => r is Ok,
                        Err(e) => r == Err::<(), IoError>(e),
                    }
                    &&& final(self).content.failure() == old(self).content.failure()
                    &&& if crate::io::accepts(
                        spend(budget, wire.len()),
                        take_up_to(old(self).content.pending(), u64::MAX).len(),
                    ) {
                        final(self).content.pending() == skip_up_to(old(self).content.pending(), u64::MAX)
                    } else {
                        final(self).content.pending().is_suffix_of(old(self).content.pending())
                    }
                } else {
                    &&& header_written(
                        old(self).header.attributes@,
                        old(self).header.size,
                        budget,
                        after.skip(before.len() as int),
                        r,
                    )
                    &&& final(self).content == old(self).content
                }
            }),
    {
        let ghost before = (*w).written();
        match self.header.serialize_header_into(w) {
            Ok(_) => {},
            Err(e) => return Err(e),
        }
        proof {
            let (wire, whole) = header_attempt(old(self).header.attributes@, old(self).header.size);
            assert((*w).written() =~= before + (*w).written().skip(before.len() as int));
            assert((*w).written() == before + wire);
        }
        match copy(&mut self.content, u64::MAX, w) {
            Ok(_) => Ok(()),
            Err(e) => Err(e),
        }
    }
}

/// Nothing has been given.
#[derive(Debug, Clone, Copy, PartialEq, Eq, Structural)]
pub struct Unset;

/// This has been given.
#[derive(Debug)]
pub struct Given<T>(pub T);

/// Builder for constructing a [`FlowFile`] with a fluent API.
///
/// Use [`FlowFile::builder()`] to create a new builder, then chain methods to set
/// the size, attributes, and content. All three must be set before calling `build()`.
#[derive(Debug)]
pub struct FlowFileBuilder<Size, Attr, Content> {
    pub size: Size,
    pub attributes: Attr,
    pub content: Content,
}

impl<S, C> FlowFileBuilder<S, Unset, C> {
    /// Set the attributes for the flow file.
    pub fn attributes(self, attributes: Attributes) -> (builder: FlowFileBuilder<S, Given<Attributes>, C>)
        ensures
            builder.size == self.size,
            builder.attributes == Given(attributes),
            builder.content == self.content,
    {
        FlowFileBuilder { size: self.size, attributes: Given(attributes), content: self.content }
    }
}

impl<A, C> FlowFileBuilder<Unset, A, C> {
    /// Set the content size (in bytes) for the flow file.
    pub fn size(self, size: u64) -> (builder: FlowFileBuilder<Given<u64>, A, C>)
        ensures
            builder.size == Given(size),
            builder.attributes == self.attributes,
            builder.content == self.content,
    {
        FlowFileBuilder { size: Given(size), attributes: self.attributes, content: self.content }
    }
}

impl<S, A> FlowFileBuilder<S, A, Unset> {
    /// Set the content for the flow file.
    ///
    /// Note: For in-memory content, consider using
    /// [`content_from_bytes()`](FlowFileBuilder::content_from_bytes), which automatically
    /// calculates the size.
    pub fn content<C>(self, content: C) -> (builder: FlowFileBuilder<S, A, Given<C>>)
        ensures
            builder.size == self.size,
            builder.attributes == self.attributes,
            builder.content == Given(content),
    {
        FlowFileBuilder { size: self.size, attributes: self.attributes, content: Given(content) }
    }
}

impl<C> FlowFileBuilder<Given<u64>, Given<Attributes>, Given<C>> {
    /// Build the final [`FlowFile`].
    ///
    /// This method is only available when all three fields (size, attributes, content) have been
    /// set.
    pub fn build(self) -> (f: FlowFile<C>)
        ensures
            f.header.size == self.size.0,
            f.header.attributes == self.attributes.0,
            f.content == self.content.0,
    {
        FlowFile { header: FlowFileHeader::new(self.size.0, self.attributes.0), content: self.content.0 }
    }
}

impl<A> FlowFileBuilder<Unset, A, Unset> {
    /// Set content from bytes, automatically calculating the size.
    pub fn content_from_bytes(self, content: Vec<u8>) -> (builder: FlowFileBuilder<Given<u64>, A, Given<Cursor>>)
        ensures
            builder.size.0 == content@.len(),
            builder.attributes == self.attributes,
            builder.content.0.pending() == content@,
            builder.content.0.failure() is None,
    {
        FlowFileBuilder {
            size: Given(content.len() as u64),
            attributes: self.attributes,
            content: Given(Cursor::new(content)),
        }
    }

    /// Set content from a reader, buffering it entirely into memory.
    ///
    /// # Errors
    ///
    /// Whatever reading from the reader fails with.
    pub fn content_from_reader_buffered_in_memory<R: Reader>(self, reader: R) -> (r: core::result::Result<
        FlowFileBuilder<Given<u64>, A, Given<Cursor>>,
        IoError,
    >)
        ensures
            match reader.failure() {
                Some(e) => r matches Err(same) && same == e,
                None => {
                    &&& r matches Ok(builder)
                    &&& builder.size.0 == reader.pending().len()
                    &&& builder.attributes == self.attributes
                    &&& builder.content.0.pending() == reader.pending()
                    &&& builder.content.0.failure() is None
                },
            },
    {
        let mut reader = reader;
        match read_all(&mut reader) {
            Ok(content) => Ok(self.content_from_bytes(content)),
            Err(e) => Err(e),
        }
    }
}

} // verus!
