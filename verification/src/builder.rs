//! Building flow files.

use vstd::prelude::*;

use crate::attr;
use crate::attributes::Attributes;
use crate::attributes::{insert_all, text_pairs, AttributeMap};
use crate::error::IoError;
use crate::flow_file::FlowFile;
use crate::fragments::FragmentKeys;
use crate::fragments::Keys;
use crate::io::Reader;

verus! {

/// Builder for [`FlowFile`]s.
///
/// Add attributes first. Supplying the content finishes the build.
#[derive(Debug)]
pub struct FlowFileBuilder {
    attributes: Attributes,
}

impl View for FlowFileBuilder {
    type V = AttributeMap;

    closed spec fn view(&self) -> AttributeMap {
        self.attributes@
    }
}

/// Attributes with a split undone: the fragment attributes are gone, and the
/// file name is the one the split recorded, if it recorded one.
pub open spec fn defragmented(attributes: AttributeMap, keys: Keys) -> AttributeMap {
    let named = if attributes.dom().contains(keys.original_filename) {
        attributes.remove(keys.original_filename).insert(attr::FILENAME@, attributes[keys.original_filename])
    } else {
        attributes
    };
    named.remove(keys.identifier).remove(keys.index).remove(keys.count)
}

impl Clone for FlowFileBuilder {
    fn clone(&self) -> (copy: FlowFileBuilder)
        ensures
            copy@ == self@,
    {
        FlowFileBuilder { attributes: self.attributes.clone() }
    }
}

impl Default for FlowFileBuilder {
    fn default() -> (builder: FlowFileBuilder)
        ensures
            builder@ == Map::<Seq<char>, Seq<char>>::empty(),
    {
        FlowFileBuilder { attributes: Attributes::new() }
    }
}

impl FlowFileBuilder {
    /// Create an empty builder. Equivalent to [`FlowFile::builder`].
    #[must_use]
    pub fn new() -> (builder: FlowFileBuilder)
        ensures
            builder@ == Map::<Seq<char>, Seq<char>>::empty(),
    {
        FlowFileBuilder { attributes: Attributes::new() }
    }

    /// A builder that starts from these attributes.
    pub(crate) fn with(attributes: Attributes) -> (builder: FlowFileBuilder)
        ensures
            builder@ == attributes@,
    {
        FlowFileBuilder { attributes }
    }

    /// Add a single attribute, replacing any previous value for the key.
    ///
    /// The [`attr`] module names the keys NiFi gives a meaning to.
    #[must_use]
    pub fn attribute(self, key: &str, value: &str) -> (builder: FlowFileBuilder)
        ensures
            builder@ == self@.insert(key@, value@),
    {
        let mut attributes = self.attributes;
        attributes.insert(key.to_owned(), value.to_owned());
        FlowFileBuilder { attributes }
    }

    /// Add all attributes of a list of key-value pairs, in order.
    #[must_use]
    pub fn attributes(self, attributes: Vec<(String, String)>) -> (builder: FlowFileBuilder)
        ensures
            builder@ == insert_all(self@, text_pairs(attributes@)),
    {
        let mut all = self.attributes;
        all.extend(attributes);
        FlowFileBuilder { attributes: all }
    }

    /// Remove an attribute, if present.
    ///
    /// Mostly useful after `FlowFile::derive` or `Fragments::next_part`, to
    /// drop an inherited attribute that does not apply to the new flow file.
    #[must_use]
    pub fn without_attribute(self, key: &str) -> (builder: FlowFileBuilder)
        ensures
            builder@ == self@.remove(key@),
    {
        let mut attributes = self.attributes;
        attributes.remove(key);
        FlowFileBuilder { attributes }
    }

    /// Undo what `Fragments` added, dropping the fragment attributes and
    /// restoring [`filename`](attr::FILENAME) from
    /// [`segment.original.filename`](attr::SEGMENT_ORIGINAL_FILENAME).
    ///
    /// Use it at the tail of a merge. This handles the default attribute keys.
    /// For a split that used custom ones, hand the same [`FragmentKeys`] to
    /// [`defragment_with`](Self::defragment_with).
    #[must_use]
    pub fn defragment(self) -> (builder: FlowFileBuilder)
        ensures
            builder@ == defragmented(self@, crate::fragments::default_keys()),
    {
        let keys = FragmentKeys::default();
        self.defragment_with(&keys)
    }

    /// Undo a split that numbered its parts with custom keys.
    ///
    /// This is the other end of `Fragments::with_keys`. The same value that
    /// decided what to write decides what to undo, so a custom split is as
    /// reversible as a default one.
    #[must_use]
    pub fn defragment_with(self, keys: &FragmentKeys) -> (builder: FlowFileBuilder)
        ensures
            builder@ == defragmented(self@, keys@),
    {
        let mut attributes = self.attributes;
        match attributes.remove(keys.original_filename.as_str()) {
            Some(filename) => {
                attributes.insert(attr::FILENAME.to_owned(), filename);
            },
            None => {
                assert(attributes@ =~= self@);
            },
        }
        attributes.remove(keys.identifier.as_str());
        attributes.remove(keys.index.as_str());
        attributes.remove(keys.count.as_str());
        FlowFileBuilder { attributes }
    }

    /// Finish the build with in-memory content. The size is the content's
    /// length.
    #[must_use]
    pub fn content(self, content: Vec<u8>) -> (f: FlowFile<Vec<u8>>)
        ensures
            f.attributes@ == self@,
            f.content@ == content@,
            f.size == content@.len(),
    {
        FlowFile { size: content.len() as u64, attributes: self.attributes, content }
    }

    /// Finish the build with no content at all.
    ///
    /// A flow file that carries only attributes is a normal thing in NiFi. The
    /// terminator of a fragment set is one example.
    #[must_use]
    pub fn empty(self) -> (f: FlowFile<Vec<u8>>)
        ensures
            f.attributes@ == self@,
            f.content@ == Seq::<u8>::empty(),
            f.size == 0,
    {
        self.content(Vec::new())
    }

    /// Finish the build with content from a reader.
    ///
    /// The V3 format stores the content size before the content itself, so the
    /// size has to be known up front. `size` is the number of bytes that will
    /// be read from `content` when the flow file is serialized.
    ///
    /// If you don't know the size, use [`buffered`](Self::buffered) to read the
    /// content into memory first.
    #[must_use]
    pub fn reader<R>(self, content: R, size: u64) -> (f: FlowFile<R>)
        ensures
            f.attributes@ == self@,
            f.content == content,
            f.size == size,
    {
        FlowFile { size, attributes: self.attributes, content }
    }

    /// Finish the build by reading `content` to completion into memory.
    ///
    /// Use it when the content size is not known up front. The whole content is
    /// held in memory.
    ///
    /// # Errors
    ///
    /// Any error from reading `content` to the end.
    pub fn buffered<R: Reader>(self, content: R) -> (r: core::result::Result<FlowFile<Vec<u8>>, IoError>)
        ensures
            match content.failure() {
                Some(failure) => r == Err::<FlowFile<Vec<u8>>, IoError>(failure),
                None => {
                    &&& r matches Ok(f)
                    &&& f.attributes@ == self@
                    &&& f.content@ == content.pending()
                    &&& f.size == content.pending().len()
                },
            },
    {
        let mut reader = content;
        match crate::io::read_all(&mut reader) {
            Ok(bytes) => Ok(self.content(bytes)),
            Err(e) => Err(e),
        }
    }
}

} // verus!
