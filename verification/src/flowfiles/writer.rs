//! Writing flow files to a stream.

use vstd::prelude::*;

use crate::attributes::Attributes;
use crate::error::IoError;
use crate::flowfiles::header::write_flowfile_header;
use crate::flowfiles::header::{header_attempt, header_written};
use crate::flowfiles::iterator::StreamedFlowFile;
use crate::io::spend;
use crate::io::{Cursor, Writer};

verus! {

/// Content whose size can be asked for.
///
/// What the size is, is said of a content for proofs alone. A type of this
/// crate defines it; one outside of it, such as a file, is outside of what is
/// proved.
pub trait Storage: Sized {
    /// Why the size is not known.
    type Error;

    /// The size, or why it is not known.
    open spec fn extent(&self) -> core::result::Result<u64, Self::Error> {
        arbitrary()
    }

    /// The size in bytes.
    fn size(&self) -> (r: core::result::Result<u64, Self::Error>)
        ensures
            r == self.extent(),
    ;
}

/// Content in memory always knows its size.
#[derive(Debug, Clone, Copy, PartialEq, Eq, Structural)]
pub struct Never;

impl Storage for Cursor {
    type Error = Never;

    open spec fn extent(&self) -> core::result::Result<u64, Never> {
        Ok(self.whole().len() as u64)
    }

    fn size(&self) -> (r: core::result::Result<u64, Never>) {
        Ok(self.get_ref().len() as u64)
    }
}

/// A flow file to be written.
#[derive(Debug)]
pub struct OutputFlowFile<R> {
    /// The full size of the flow file content, not including attributes.
    pub size: u64,
    /// All attributes stored in the flow file.
    pub attributes: Attributes,
    /// The content of the flow file.
    pub content: R,
}

/// A flow file to be written that has no content yet.
#[derive(Debug)]
pub struct OutputFlowFileWithoutContent(pub Attributes);

impl OutputFlowFile<()> {
    /// A flow file with no attributes.
    #[must_use]
    pub fn empty() -> (f: OutputFlowFileWithoutContent)
        ensures
            f.0@ == Map::<Seq<char>, Seq<char>>::empty(),
    {
        OutputFlowFileWithoutContent(Attributes::new())
    }

    /// A flow file with these attributes.
    #[must_use]
    pub fn with_attributes(attributes: Attributes) -> (f: OutputFlowFileWithoutContent)
        ensures
            f.0 == attributes,
    {
        OutputFlowFileWithoutContent(attributes)
    }
}

impl OutputFlowFileWithoutContent {
    /// The value of an attribute.
    pub fn get_attribute(&self, key: &str) -> (value: Option<&str>)
        ensures
            match value {
                Some(v) => self.0@.dom().contains(key@) && v@ == self.0@[key@],
                None => !self.0@.dom().contains(key@),
            },
    {
        self.0.get(key)
    }

    /// Set an attribute, and say what it was before.
    pub fn set_attribute(&mut self, key: String, value: String) -> (replaced: Option<String>)
        ensures
            final(self).0@ == old(self).0@.insert(key@, value@),
            match replaced {
                Some(v) => old(self).0@.dom().contains(key@) && v@ == old(self).0@[key@],
                None => !old(self).0@.dom().contains(key@),
            },
    {
        self.0.insert(key, value)
    }

    /// Set an attribute, and go on.
    pub fn with_attribute(&mut self, key: String, value: String) -> (this: &mut Self)
        ensures
            this.0@ == old(self).0@.insert(key@, value@),
            *final(self) == *final(this),
    {
        self.0.insert(key, value);
        self
    }

    /// Give the flow file its content.
    ///
    /// # Errors
    ///
    /// If the content does not know its size.
    pub fn with_content<S: Storage>(self, content: S) -> (r: core::result::Result<OutputFlowFile<S>, S::Error>)
        ensures
            match content.extent() {
                Ok(size) => {
                    &&& r matches Ok(f)
                    &&& f.size == size
                    &&& f.attributes == self.0
                    &&& f.content == content
                },
                Err(e) => r matches Err(same) && same == e,
            },
    {
        match content.size() {
            Ok(size) => Ok(OutputFlowFile { size, attributes: self.0, content }),
            Err(e) => Err(e),
        }
    }
}

impl<S> OutputFlowFile<S> {
    /// The size of the content.
    pub fn size(&self) -> (size: u64)
        ensures
            size == self.size,
    {
        self.size
    }

    /// The value of an attribute.
    pub fn get_attribute(&self, key: &str) -> (value: Option<&str>)
        ensures
            match value {
                Some(v) => self.attributes@.dom().contains(key@) && v@ == self.attributes@[key@],
                None => !self.attributes@.dom().contains(key@),
            },
    {
        self.attributes.get(key)
    }

    /// Set an attribute, and say what it was before.
    pub fn set_attribute(&mut self, key: String, value: String) -> (replaced: Option<String>)
        ensures
            final(self).attributes@ == old(self).attributes@.insert(key@, value@),
            final(self).size == old(self).size,
            final(self).content == old(self).content,
            match replaced {
                Some(v) => old(self).attributes@.dom().contains(key@) && v@ == old(self).attributes@[key@],
                None => !old(self).attributes@.dom().contains(key@),
            },
    {
        self.attributes.insert(key, value)
    }

    /// Set an attribute, and go on.
    pub fn with_attribute(&mut self, key: String, value: String) -> (this: &mut Self)
        ensures
            this.attributes@ == old(self).attributes@.insert(key@, value@),
            this.size == old(self).size,
            this.content == old(self).content,
            *final(self) == *final(this),
    {
        self.attributes.insert(key, value);
        self
    }

    /// The content.
    pub fn content(&mut self) -> (content: &mut S)
        ensures
            *content == old(self).content,
            final(self).content == *final(content),
            final(self).size == old(self).size,
            final(self).attributes == old(self).attributes,
    {
        &mut self.content
    }
}

/// Writes flow files, one after the other.
#[derive(Debug)]
pub struct FlowFileEncoder<W> {
    pub writer: W,
}

/// Writer for the body of a single flow file.
///
/// This borrows the underlying encoder writer for the duration
/// of writing the body bytes.
pub struct FlowFileBodyWriter<'a, W> {
    pub writer: &'a mut W,
}

impl<'a, W: Writer> Writer for FlowFileBodyWriter<'a, W> {
    open spec fn written(&self) -> Seq<u8> {
        (*self.writer).written()
    }

    open spec fn flushed(&self) -> Seq<u8> {
        (*self.writer).flushed()
    }

    open spec fn budget(&self) -> Option<(nat, IoError)> {
        (*self.writer).budget()
    }

    open spec fn flush_failure(&self) -> Option<IoError> {
        (*self.writer).flush_failure()
    }

    fn write_all(&mut self, bytes: &[u8]) -> (r: core::result::Result<(), IoError>) {
        (*self.writer).write_all(bytes)
    }

    fn flush(&mut self) -> (r: core::result::Result<(), IoError>) {
        (*self.writer).flush()
    }
}

impl<W: Writer> FlowFileEncoder<W> {
    /// Write to `writer`.
    pub fn new(writer: W) -> (encoder: FlowFileEncoder<W>)
        ensures
            encoder.writer == writer,
    {
        FlowFileEncoder { writer }
    }

    /// Write the header of a streamed flow file, and hand out the writer for
    /// its body.
    ///
    /// # Errors
    ///
    /// If the header cannot be written.
    pub fn write_flow_file<R>(&mut self, ff: &StreamedFlowFile<R>) -> (r: core::result::Result<
        FlowFileBodyWriter<'_, W>,
        IoError,
    >)
        ensures
            match r {
                Ok(body) => {
                    let (wire, whole) = header_attempt(ff.header.attributes@, ff.header.size);
                    &&& whole
                    &&& crate::io::accepts((*old(self)).writer.budget(), wire.len())
                    &&& (*body.writer).written() == (*old(self)).writer.written() + wire
                    &&& (*body.writer).budget() == spend((*old(self)).writer.budget(), wire.len())
                    &&& (*final(self)).writer == *final(body.writer)
                },
                Err(e) => {
                    let before = (*old(self)).writer.written();
                    let after = (*final(self)).writer.written();
                    &&& before.is_prefix_of(after)
                    &&& header_written(
                        ff.header.attributes@,
                        ff.header.size,
                        (*old(self)).writer.budget(),
                        after.skip(before.len() as int),
                        Err(e),
                    )
                },
            },
    {
        let ghost before = self.writer.written();
        match write_flowfile_header(&mut self.writer, &ff.header.attributes, ff.header.size) {
            Ok(_) => {
                proof {
                    assert(self.writer.written() =~= before + self.writer.written().skip(before.len() as int));
                }
                Ok(FlowFileBodyWriter { writer: &mut self.writer })
            },
            Err(e) => Err(e),
        }
    }
}

} // verus!
