//! Deriving many flow files from one.

use vstd::prelude::*;

use crate::attr;
use crate::attributes::Attributes;
use crate::attributes::{insert_all, text_pairs, AttributeMap};
use crate::builder::FlowFileBuilder;
use crate::flow_file::FlowFile;
use crate::identity::fresh_uuid;
use crate::identity::is_uuid_text;
use crate::text::decimal;
use crate::text::decimal_text;

verus! {

/// The attribute keys a fragment set is numbered with.
///
/// Defaults to NiFi's own: [`fragment.identifier`](attr::FRAGMENT_ID),
/// [`fragment.index`](attr::FRAGMENT_INDEX),
/// [`fragment.count`](attr::FRAGMENT_COUNT) and
/// [`segment.original.filename`](attr::SEGMENT_ORIGINAL_FILENAME), which is
/// what to use for anything `MergeContent` will see.
///
/// Worth naming as a value when they are *not* the defaults, because both ends
/// of a split need the same set: `Fragments::with_keys` to write them and
/// [`FlowFileBuilder::defragment_with`] to undo them.
#[derive(Debug, PartialEq, Eq)]
pub struct FragmentKeys {
    pub identifier: String,
    pub index: String,
    pub count: String,
    pub original_filename: String,
}

/// The keys of a fragment set, as strings.
pub struct Keys {
    pub identifier: Seq<char>,
    pub index: Seq<char>,
    pub count: Seq<char>,
    pub original_filename: Seq<char>,
}

/// NiFi's own keys.
pub open spec fn default_keys() -> Keys {
    Keys {
        identifier: attr::FRAGMENT_ID@,
        index: attr::FRAGMENT_INDEX@,
        count: attr::FRAGMENT_COUNT@,
        original_filename: attr::SEGMENT_ORIGINAL_FILENAME@,
    }
}

/// Attributes without the values under any of these keys.
pub open spec fn without_keys(attributes: AttributeMap, keys: Keys) -> AttributeMap {
    attributes.remove(keys.identifier).remove(keys.index).remove(keys.count).remove(keys.original_filename)
}

impl View for FragmentKeys {
    type V = Keys;

    open spec fn view(&self) -> Keys {
        Keys {
            identifier: self.identifier@,
            index: self.index@,
            count: self.count@,
            original_filename: self.original_filename@,
        }
    }
}

impl Clone for FragmentKeys {
    fn clone(&self) -> (copy: FragmentKeys)
        ensures
            copy@ == self@,
    {
        FragmentKeys {
            identifier: self.identifier.clone(),
            index: self.index.clone(),
            count: self.count.clone(),
            original_filename: self.original_filename.clone(),
        }
    }
}

impl FragmentKeys {
    /// Write the fragment identifier under `key` instead of
    /// [`fragment.identifier`](attr::FRAGMENT_ID).
    #[must_use]
    pub fn identifier_attribute(self, key: &str) -> (keys: FragmentKeys)
        ensures
            keys@ == (Keys { identifier: key@, ..self@ }),
    {
        FragmentKeys { identifier: key.to_owned(), ..self }
    }

    /// Write the fragment index under `key` instead of
    /// [`fragment.index`](attr::FRAGMENT_INDEX).
    #[must_use]
    pub fn index_attribute(self, key: &str) -> (keys: FragmentKeys)
        ensures
            keys@ == (Keys { index: key@, ..self@ }),
    {
        FragmentKeys { index: key.to_owned(), ..self }
    }

    /// Write the fragment count under `key` instead of
    /// [`fragment.count`](attr::FRAGMENT_COUNT).
    #[must_use]
    pub fn count_attribute(self, key: &str) -> (keys: FragmentKeys)
        ensures
            keys@ == (Keys { count: key@, ..self@ }),
    {
        FragmentKeys { count: key.to_owned(), ..self }
    }

    /// Write the original filename under `key` instead of
    /// [`segment.original.filename`](attr::SEGMENT_ORIGINAL_FILENAME).
    #[must_use]
    pub fn original_filename_attribute(self, key: &str) -> (keys: FragmentKeys)
        ensures
            keys@ == (Keys { original_filename: key@, ..self@ }),
    {
        FragmentKeys { original_filename: key.to_owned(), ..self }
    }

    /// Every key in the set, for dropping a parent's values under them.
    pub fn all(&self) -> (keys: [&String; 4])
        ensures
            keys@ =~= seq![&self.identifier, &self.index, &self.count, &self.original_filename],
    {
        [&self.identifier, &self.index, &self.count, &self.original_filename]
    }
}

impl Default for FragmentKeys {
    fn default() -> (keys: FragmentKeys)
        ensures
            keys@ == default_keys(),
    {
        FragmentKeys {
            identifier: attr::FRAGMENT_ID.to_owned(),
            index: attr::FRAGMENT_INDEX.to_owned(),
            count: attr::FRAGMENT_COUNT.to_owned(),
            original_filename: attr::SEGMENT_ORIGINAL_FILENAME.to_owned(),
        }
    }
}

/// A counter for splitting one flow file into many.
///
/// Created with [`FlowFile::fragments`]. Each call to
/// [`next_part`](Self::next_part) yields a [`FlowFileBuilder`] carrying the
/// parent's attributes, with a fresh [`uuid`](attr::UUID), plus NiFi's fragment
/// attributes, which let `MergeContent` reassemble the parent in `defragment`
/// mode:
///
/// - [`fragment.identifier`](attr::FRAGMENT_ID), a random UUID shared by the
///   whole set.
/// - [`fragment.index`](attr::FRAGMENT_INDEX), a one-up counter from 1.
/// - [`fragment.count`](attr::FRAGMENT_COUNT), only after
///   [`with_count`](Self::with_count).
/// - [`segment.original.filename`](attr::SEGMENT_ORIGINAL_FILENAME), the
///   parent's [`filename`](attr::FILENAME), if it had one.
///
/// All four are dropped from the inherited attributes rather than carried
/// over, since a new split supersedes the old one.
///
/// A bundle has to say how big it is. If the total is known before the parts
/// are built, [`with_count`](Self::with_count) puts it on every part; if it is
/// only known once the input is exhausted, [`terminate`](Self::terminate) ends
/// the set with an empty flow file carrying it.
#[derive(Debug)]
pub struct Fragments {
    attributes: Attributes,
    identifier: String,
    count: Option<u64>,
    original_filename: Option<String>,
    index: u64,
    keys: FragmentKeys,
}

/// A split under way, as the values it is made of.
pub struct Split {
    pub attributes: AttributeMap,
    pub identifier: Seq<char>,
    pub count: Option<u64>,
    pub original_filename: Option<Seq<char>>,
    pub index: u64,
    pub keys: Keys,
}

impl View for Fragments {
    type V = Split;

    closed spec fn view(&self) -> Split {
        Split {
            attributes: self.attributes@,
            identifier: self.identifier@,
            count: self.count,
            original_filename: match self.original_filename {
                Some(name) => Some(name@),
                None => None,
            },
            index: self.index,
            keys: self.keys@,
        }
    }
}

impl Split {
    /// The start of splitting a flow file with these attributes.
    pub open spec fn start(attributes: AttributeMap, identifier: Seq<char>) -> Split {
        Split {
            attributes: without_keys(attributes, default_keys()),
            identifier,
            count: None,
            original_filename: if attributes.dom().contains(attr::FILENAME@) {
                Some(attributes[attr::FILENAME@])
            } else {
                None
            },
            index: 0,
            keys: default_keys(),
        }
    }

    /// The attributes of the flow file at `index`, with `count` if it is to
    /// declare one: those of the set, without anything under the keys of the
    /// set, then the identity of this flow file and what the set says of it.
    pub open spec fn part(self, index: u64, count: Option<u64>, uuid: Seq<char>) -> AttributeMap {
        let numbered = without_keys(self.attributes, self.keys).insert(attr::UUID@, uuid).insert(
            self.keys.identifier,
            self.identifier,
        ).insert(self.keys.index, decimal(index as nat));
        let counted = match count {
            Some(n) => numbered.insert(self.keys.count, decimal(n as nat)),
            None => numbered,
        };
        match self.original_filename {
            Some(name) => counted.insert(self.keys.original_filename, name),
            None => counted,
        }
    }

    /// Another part fits the set: the declared count is not used up.
    pub open spec fn has_room(self) -> bool {
        &&& self.index < u64::MAX
        &&& self.count matches Some(count) ==> self.index < count
    }

    /// The next flow file completes the set, as far as a count was declared.
    pub open spec fn can_end(self) -> bool {
        &&& self.index < u64::MAX
        &&& self.count matches Some(count) ==> self.index + 1 == count
    }
}

impl Fragments {
    /// Split a flow file with these attributes, under this identifier.
    pub fn identified(attributes: &Attributes, identifier: String) -> (fragments: Fragments)
        ensures
            fragments@ == Split::start(attributes@, identifier@),
    {
        let keys = FragmentKeys::default();
        let original_filename = match attributes.get(attr::FILENAME) {
            Some(name) => Some(name.to_owned()),
            None => None,
        };
        // A fresh split supersedes any the parent was itself part of, under
        // the default keys. The configured keys are not known yet, they are
        // set on the returned counter, so `part` drops those as well.
        let mut rest = attributes.clone();
        rest.remove(keys.identifier.as_str());
        rest.remove(keys.index.as_str());
        rest.remove(keys.count.as_str());
        rest.remove(keys.original_filename.as_str());
        Fragments { attributes: rest, identifier, count: None, original_filename, index: 0, keys }
    }

    /// Split a flow file with these attributes, under a random identifier.
    pub fn new(attributes: &Attributes) -> (fragments: Fragments)
        ensures
            is_uuid_text(fragments@.identifier),
            fragments@ == Split::start(attributes@, fragments@.identifier),
    {
        Self::identified(attributes, fresh_uuid())
    }

    /// Use `identifier` instead of the randomly generated fragment
    /// identifier.
    #[must_use]
    pub fn with_identifier(self, identifier: &str) -> (fragments: Fragments)
        ensures
            fragments@ == (Split { identifier: identifier@, ..self@ }),
    {
        Fragments { identifier: identifier.to_owned(), ..self }
    }

    /// Record the total number of fragments, enabling the
    /// [`fragment.count`](attr::FRAGMENT_COUNT) attribute.
    #[must_use]
    pub fn with_count(self, count: u64) -> (fragments: Fragments)
        ensures
            fragments@ == (Split { count: Some(count), ..self@ }),
    {
        Fragments { count: Some(count), ..self }
    }

    /// Use `filename` as the original filename instead of the parent's
    /// [`filename`](attr::FILENAME) attribute.
    #[must_use]
    pub fn with_original_filename(self, filename: &str) -> (fragments: Fragments)
        ensures
            fragments@ == (Split { original_filename: Some(filename@), ..self@ }),
    {
        Fragments { original_filename: Some(filename.to_owned()), ..self }
    }

    /// Use `keys` for all four fragment attributes.
    ///
    /// The form to reach for when the same keys have to be undone later:
    /// hold a [`FragmentKeys`] and hand it to both this and
    /// [`defragment_with`](FlowFileBuilder::defragment_with).
    #[must_use]
    pub fn with_keys(self, keys: FragmentKeys) -> (fragments: Fragments)
        ensures
            fragments@ == (Split { keys: keys@, ..self@ }),
    {
        Fragments { keys, ..self }
    }

    /// Add an attribute that every part in this set carries, replacing any
    /// value inherited from the parent.
    ///
    /// It joins the inherited attributes, so it applies to
    /// [`terminate`](Self::terminate) too, and a part that sets the same key on
    /// its own builder still wins. The four fragment attributes are not
    /// settable this way: a value written here under one of
    /// [`keys`](Self::keys) is replaced by the one the split produces.
    #[must_use]
    pub fn attribute(self, key: &str, value: &str) -> (fragments: Fragments)
        ensures
            fragments@ == (Split { attributes: self@.attributes.insert(key@, value@), ..self@ }),
    {
        let mut attributes = self.attributes;
        attributes.insert(key.to_owned(), value.to_owned());
        Fragments { attributes, ..self }
    }

    /// Add attributes from a list of key-value pairs to every part in this
    /// set. The plural of [`attribute`](Self::attribute).
    #[must_use]
    pub fn attributes(self, attributes: Vec<(String, String)>) -> (fragments: Fragments)
        ensures
            fragments@ == (Split { attributes: insert_all(self@.attributes, text_pairs(attributes@)), ..self@ }),
    {
        let mut all = self.attributes;
        all.extend(attributes);
        Fragments { attributes: all, ..self }
    }

    /// Drop an inherited attribute from every part in this set.
    #[must_use]
    pub fn without_attribute(self, key: &str) -> (fragments: Fragments)
        ensures
            fragments@ == (Split { attributes: self@.attributes.remove(key@), ..self@ }),
    {
        let mut attributes = self.attributes;
        attributes.remove(key);
        Fragments { attributes, ..self }
    }

    /// The keys this set writes.
    #[must_use]
    pub fn keys(&self) -> (keys: &FragmentKeys)
        ensures
            keys@ == self@.keys,
    {
        &self.keys
    }

    /// Write the fragment identifier under `key` instead of
    /// [`fragment.identifier`](attr::FRAGMENT_ID).
    #[must_use]
    pub fn identifier_attribute(self, key: &str) -> (fragments: Fragments)
        ensures
            fragments@ == (Split { keys: Keys { identifier: key@, ..self@.keys }, ..self@ }),
    {
        let keys = self.keys.identifier_attribute(key);
        Fragments { keys, ..self }
    }

    /// Write the fragment index under `key` instead of
    /// [`fragment.index`](attr::FRAGMENT_INDEX).
    #[must_use]
    pub fn index_attribute(self, key: &str) -> (fragments: Fragments)
        ensures
            fragments@ == (Split { keys: Keys { index: key@, ..self@.keys }, ..self@ }),
    {
        let keys = self.keys.index_attribute(key);
        Fragments { keys, ..self }
    }

    /// Write the fragment count under `key` instead of
    /// [`fragment.count`](attr::FRAGMENT_COUNT).
    #[must_use]
    pub fn count_attribute(self, key: &str) -> (fragments: Fragments)
        ensures
            fragments@ == (Split { keys: Keys { count: key@, ..self@.keys }, ..self@ }),
    {
        let keys = self.keys.count_attribute(key);
        Fragments { keys, ..self }
    }

    /// Write the original filename under `key` instead of
    /// [`segment.original.filename`](attr::SEGMENT_ORIGINAL_FILENAME).
    #[must_use]
    pub fn original_filename_attribute(self, key: &str) -> (fragments: Fragments)
        ensures
            fragments@ == (Split { keys: Keys { original_filename: key@, ..self@.keys }, ..self@ }),
    {
        let keys = self.keys.original_filename_attribute(key);
        Fragments { keys, ..self }
    }

    /// The identifier shared by every fragment in this set.
    #[must_use]
    pub fn identifier(&self) -> (identifier: &str)
        ensures
            identifier@ == self@.identifier,
    {
        self.identifier.as_str()
    }

    /// The number of fragments produced so far, which is also the
    /// [`fragment.index`](attr::FRAGMENT_INDEX) of the most recent one.
    #[must_use]
    pub fn produced(&self) -> (n: u64)
        ensures
            n == self@.index,
    {
        self.index
    }

    /// Whether another part fits the set: the declared count is not used up.
    #[must_use]
    pub fn has_room(&self) -> (room: bool)
        ensures
            room == self@.has_room(),
    {
        self.index < u64::MAX && match self.count {
            Some(count) => self.index < count,
            None => true,
        }
    }

    /// Whether the set can be terminated: no count was declared, or the
    /// terminator is the flow file that completes it.
    #[must_use]
    pub fn can_end(&self) -> (end: bool)
        ensures
            end == self@.can_end(),
    {
        self.index < u64::MAX && match self.count {
            Some(count) => self.index + 1 == count,
            None => true,
        }
    }

    /// Start the next fragment, advancing the index.
    ///
    /// Finish it by supplying content on the returned builder. Attributes set
    /// there win over the inherited and fragment ones, and
    /// [`without_attribute`](FlowFileBuilder::without_attribute) drops any of
    /// them.
    ///
    /// No more fragments than [`with_count`](Self::with_count) declared may be
    /// asked for. NiFi's `MergeContent` bins on `fragment.count`, so an index
    /// past it describes a set that cannot be reassembled.
    #[must_use]
    pub fn next_part(&mut self) -> (builder: FlowFileBuilder)
        requires
            old(self)@.has_room(),
        ensures
            final(self)@ == (Split { index: (old(self)@.index + 1) as u64, ..old(self)@ }),
            exists|uuid: Seq<char>| #[trigger]
                is_uuid_text(uuid) && builder@ == old(self)@.part(
                    (old(self)@.index + 1) as u64,
                    old(self)@.count,
                    uuid,
                ),
    {
        self.index = self.index + 1;
        let uuid = fresh_uuid();
        let ghost text = uuid@;
        let builder = self.part(self.index, self.count, uuid);
        assert(is_uuid_text(text) && builder@ == self@.part(self@.index, self@.count, text));
        assert(self@.part(self@.index, self@.count, text) == old(self)@.part(self@.index, self@.count, text));
        builder
    }

    /// Finish the set with a terminator: an empty flow file carrying the
    /// [`fragment.count`](attr::FRAGMENT_COUNT) the parts could not know.
    ///
    /// The count takes in the terminator itself. After `n` parts the
    /// terminator carries `fragment.index = fragment.count = n + 1`, and this
    /// consumes the counter.
    ///
    /// Use this *or* [`with_count`](Self::with_count), not both: a declared
    /// count has to be the one that the terminator completes.
    #[must_use]
    pub fn terminate(self) -> (f: FlowFile<Vec<u8>>)
        requires
            self@.can_end(),
        ensures
            f.size == 0,
            f.content@ == Seq::<u8>::empty(),
            exists|uuid: Seq<char>| #[trigger]
                is_uuid_text(uuid) && f.attributes@ == self@.part(
                    (self@.index + 1) as u64,
                    Some((self@.index + 1) as u64),
                    uuid,
                ),
    {
        let index: u64 = self.index + 1;
        let uuid = fresh_uuid();
        let ghost text = uuid@;
        let builder = self.part(index, Some(index), uuid);
        assert(is_uuid_text(text) && builder@ == self@.part(index, Some(index), text));
        builder.content(Vec::new())
    }

    /// The attributes every flow file in the set carries, at `index` and with
    /// `count` if it is to declare one, for the flow file identified by
    /// `uuid`.
    pub fn part(&self, index: u64, count: Option<u64>, uuid: String) -> (builder: FlowFileBuilder)
        ensures
            builder@ == self@.part(index, count, uuid@),
    {
        let mut builder = FlowFileBuilder::with(self.attributes.clone());
        // The parent's values under *these* keys, which the start of the split
        // could not know. Dropping them first rather than relying on the writes
        // below matters for the two that are conditional: a set that declares
        // no count, or a parent with no filename, must not leave the
        // grandparent's answer standing in for the one this split would give.
        builder = builder.without_attribute(self.keys.identifier.as_str());
        builder = builder.without_attribute(self.keys.index.as_str());
        builder = builder.without_attribute(self.keys.count.as_str());
        builder = builder.without_attribute(self.keys.original_filename.as_str());
        builder = builder.attribute(attr::UUID, uuid.as_str());
        builder = builder.attribute(self.keys.identifier.as_str(), self.identifier.as_str());
        let number = decimal_text(index);
        builder = builder.attribute(self.keys.index.as_str(), number.as_str());
        if let Some(total) = count {
            let total_text = decimal_text(total);
            builder = builder.attribute(self.keys.count.as_str(), total_text.as_str());
        }
        if let Some(filename) = &self.original_filename {
            builder = builder.attribute(self.keys.original_filename.as_str(), filename.as_str());
        }
        builder
    }
}

} // verus!
