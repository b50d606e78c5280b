//! Caps on what a header may declare.

use vstd::prelude::*;
use vstd::utf8::*;

use crate::attributes::Attributes;
use crate::attributes::{sorted_entries, AttributeMap, Entries};
use crate::error::{Error, Result};

verus! {

/// Limits applied while parsing a flow file header, protecting against
/// malicious or corrupt input.
///
/// The plain parsing functions apply [`Limits::unlimited`] and trust their
/// input. The `*_with_limits` variants take explicit limits, and the HTTP
/// extractors apply [`recommended`](Self::recommended).
///
/// Build a set of limits by chaining the `with_max_*` methods onto a starting
/// point. Use [`unlimited`](Self::unlimited) to build up from nothing, and
/// [`recommended`](Self::recommended) to adjust down from sensible caps. Each
/// method takes `None` as well as a value, so you can clear a limit as well as
/// set one.
///
/// Both attribute limits apply to the length a field declares, before its bytes
/// are read. So the total bounds how much the parser buffers, and not only what
/// it accepts in the end.
#[derive(Debug, Clone, Copy, PartialEq, Eq)]
pub struct Limits {
    pub max_attributes: Option<usize>,
    pub max_attribute_len: Option<usize>,
    pub max_total_attribute_len: Option<usize>,
    pub max_content_len: Option<u64>,
}

/// Nothing is over these limits.
pub open spec fn no_limits() -> Limits {
    Limits { max_attributes: None, max_attribute_len: None, max_total_attribute_len: None, max_content_len: None }
}

/// A number as far as a `usize` can hold it.
pub open spec fn capped(n: nat) -> nat {
    if n <= usize::MAX {
        n
    } else {
        usize::MAX as nat
    }
}

/// `n` is over `limit`, if there is one.
pub open spec fn over(n: nat, limit: Option<usize>) -> bool {
    limit matches Some(most) && n > most
}

/// The length in bytes of the first key or value over `limit`, each key
/// looked at before its value.
pub open spec fn first_too_long(entries: Entries, limit: Option<usize>) -> Option<nat>
    decreases entries.len(),
{
    if entries.len() == 0 {
        None
    } else {
        match first_too_long(entries.drop_last(), limit) {
            Some(len) => Some(len),
            None => if over(encode_utf8(entries.last().0).len(), limit) {
                Some(encode_utf8(entries.last().0).len())
            } else if over(encode_utf8(entries.last().1).len(), limit) {
                Some(encode_utf8(entries.last().1).len())
            } else {
                None
            },
        }
    }
}

/// How many bytes the keys and values take together.
pub open spec fn total_len(entries: Entries) -> nat
    decreases entries.len(),
{
    if entries.len() == 0 {
        0
    } else {
        total_len(entries.drop_last()) + encode_utf8(entries.last().0).len() + encode_utf8(entries.last().1).len()
    }
}

impl Limits {
    /// No limits at all, matching NiFi's own unpackager.
    ///
    /// This is the neutral starting point. Chain `with_max_*` onto it to build
    /// a set of limits up from nothing.
    #[must_use]
    pub fn unlimited() -> (limits: Limits)
        ensures
            limits == no_limits(),
    {
        Limits { max_attributes: None, max_attribute_len: None, max_total_attribute_len: None, max_content_len: None }
    }

    /// Sensible caps for untrusted input: at most 4096 attributes, each key
    /// and value at most 1 MiB, 2 MiB of attribute bytes in total, and no cap
    /// on the declared content size.
    ///
    /// This is also [`Default::default`]. The plain parsers do not apply it.
    #[must_use]
    pub fn recommended() -> (limits: Limits)
        ensures
            limits == (Limits {
                max_attributes: Some(4096usize),
                max_attribute_len: Some(0x10_0000usize),
                max_total_attribute_len: Some(0x20_0000usize),
                max_content_len: None,
            }),
    {
        Limits {
            max_attributes: Some(4096),
            max_attribute_len: Some(0x10_0000),
            max_total_attribute_len: Some(0x20_0000),
            max_content_len: None,
        }
    }

    /// Set or clear the maximum number of attributes.
    #[must_use]
    pub fn with_max_attributes(self, limit: Option<usize>) -> (limits: Limits)
        ensures
            limits == (Limits { max_attributes: limit, ..self }),
    {
        Limits { max_attributes: limit, ..self }
    }

    /// Set or clear the maximum byte length of each attribute key and value.
    #[must_use]
    pub fn with_max_attribute_len(self, limit: Option<usize>) -> (limits: Limits)
        ensures
            limits == (Limits { max_attribute_len: limit, ..self }),
    {
        Limits { max_attribute_len: limit, ..self }
    }

    /// Set or clear the maximum total byte length of all attribute keys and
    /// values in one header.
    ///
    /// This is the aggregate the per-attribute limits cannot express. Each
    /// field is checked against what is left of the budget before its bytes are
    /// read, so this bounds how much the parser buffers.
    ///
    /// It counts key and value bytes only. The framing around them is not
    /// part of it, meaning the two to six bytes of length prefix per field.
    #[must_use]
    pub fn with_max_total_attribute_len(self, limit: Option<usize>) -> (limits: Limits)
        ensures
            limits == (Limits { max_total_attribute_len: limit, ..self }),
    {
        Limits { max_total_attribute_len: limit, ..self }
    }

    /// Set or clear the maximum content size the header may declare, rejecting
    /// a larger one with [`Error::ContentTooLarge`] before any content is read.
    ///
    /// This bounds what the header claims. It says nothing about how many bytes
    /// actually arrive.
    #[must_use]
    pub fn with_max_content_len(self, limit: Option<u64>) -> (limits: Limits)
        ensures
            limits == (Limits { max_content_len: limit, ..self }),
    {
        Limits { max_content_len: limit, ..self }
    }

    /// The maximum number of attributes, if there is one.
    #[must_use]
    pub fn max_attributes(&self) -> (limit: Option<usize>)
        ensures
            limit == self.max_attributes,
    {
        self.max_attributes
    }

    /// The maximum byte length of each attribute key and value, if there is
    /// one.
    #[must_use]
    pub fn max_attribute_len(&self) -> (limit: Option<usize>)
        ensures
            limit == self.max_attribute_len,
    {
        self.max_attribute_len
    }

    /// The maximum total byte length of all attribute keys and values, if
    /// there is one.
    #[must_use]
    pub fn max_total_attribute_len(&self) -> (limit: Option<usize>)
        ensures
            limit == self.max_total_attribute_len,
    {
        self.max_total_attribute_len
    }

    /// The maximum content size the header may declare, if there is one.
    #[must_use]
    pub fn max_content_len(&self) -> (limit: Option<u64>)
        ensures
            limit == self.max_content_len,
    {
        self.max_content_len
    }

    /// Whether a declared content size is within the limits.
    pub open spec fn content_fits(self, size: u64) -> bool {
        self.max_content_len matches Some(limit) ==> size <= limit
    }

    /// What [`check`](Self::check) answers: the number of attributes is looked
    /// at first, then each key and value in order, then their total, and the
    /// content last.
    pub open spec fn verdict(self, attributes: AttributeMap, content_len: u64) -> Result<()> {
        let entries = sorted_entries(attributes);
        if over(attributes.len(), self.max_attributes) {
            Err(Error::TooManyAttributes { count: attributes.len() as usize, limit: self.max_attributes->0 })
        } else if first_too_long(entries, self.max_attribute_len) is Some {
            Err(
                Error::AttributeTooLong {
                    len: first_too_long(entries, self.max_attribute_len)->0 as usize,
                    limit: self.max_attribute_len->0,
                },
            )
        } else if over(capped(total_len(entries)), self.max_total_attribute_len) {
            Err(
                Error::HeaderTooLarge {
                    len: capped(total_len(entries)) as usize,
                    limit: self.max_total_attribute_len->0,
                },
            )
        } else if !self.content_fits(content_len) {
            Err(Error::ContentTooLarge { size: content_len, limit: self.max_content_len->0 })
        } else {
            Ok(())
        }
    }

    /// Whether one field of `len` bytes is within the per-attribute limit.
    pub(crate) fn check_len(&self, len: usize) -> (r: Result<()>)
        ensures
            match r {
                Ok(_) => !over(len as nat, self.max_attribute_len),
                Err(e) => over(len as nat, self.max_attribute_len) && e == (Error::AttributeTooLong {
                    len,
                    limit: self.max_attribute_len->0,
                }),
            },
    {
        match self.max_attribute_len {
            Some(limit) if len > limit => Err(Error::AttributeTooLong { len, limit }),
            _ => Ok(()),
        }
    }

    /// Whether `total` bytes of keys and values are within the total.
    pub(crate) fn check_total(&self, total: usize) -> (r: Result<()>)
        ensures
            match r {
                Ok(_) => !over(total as nat, self.max_total_attribute_len),
                Err(e) => over(total as nat, self.max_total_attribute_len) && e == (Error::HeaderTooLarge {
                    len: total,
                    limit: self.max_total_attribute_len->0,
                }),
            },
    {
        match self.max_total_attribute_len {
            Some(limit) if total > limit => Err(Error::HeaderTooLarge { len: total, limit }),
            _ => Ok(()),
        }
    }

    /// Whether `count` attributes are within the limits.
    pub(crate) fn check_count(&self, count: usize) -> (r: Result<()>)
        ensures
            match r {
                Ok(_) => !over(count as nat, self.max_attributes),
                Err(e) => over(count as nat, self.max_attributes) && e == (Error::TooManyAttributes {
                    count,
                    limit: self.max_attributes->0,
                }),
            },
    {
        match self.max_attributes {
            Some(limit) if count > limit => Err(Error::TooManyAttributes { count, limit }),
            _ => Ok(()),
        }
    }

    /// Whether a declared content size is within the limits.
    pub(crate) fn check_content(&self, size: u64) -> (r: Result<()>)
        ensures
            match r {
                Ok(_) => self.content_fits(size),
                Err(e) => !self.content_fits(size) && e == (Error::ContentTooLarge {
                    size,
                    limit: self.max_content_len->0,
                }),
            },
    {
        match self.max_content_len {
            Some(limit) if size > limit => Err(Error::ContentTooLarge { size, limit }),
            _ => Ok(()),
        }
    }

    /// Check attributes and a content size that are already in hand, applying
    /// the same limits the parsers apply while reading.
    ///
    /// Use it for a flow file that did not come from this crate's parsers, such
    /// as one you built by hand or decoded from some other representation,
    /// where the same caps should still hold. Working on a map rather than on
    /// a header makes one difference. [`max_attributes`](Self::max_attributes)
    /// counts distinct keys here, where a parser counts what the header
    /// declared, duplicates too.
    pub fn check(&self, attributes: &Attributes, content_len: u64) -> (r: Result<()>)
        ensures
            r == self.verdict(attributes@, content_len),
    {
        let n: usize = attributes.len();
        let ghost entries = attributes.entries();
        if let Err(e) = self.check_count(n) {
            return Err(e);
        }
        let mut total: usize = 0;
        let mut i: usize = 0;
        assert(entries.take(0) =~= Seq::empty());
        assert(entries.take(n as int) =~= entries);
        while i < n
            invariant
                i <= n,
                n == entries.len(),
                entries == attributes.entries(),
                entries == sorted_entries(attributes@),
                n == attributes@.len(),
                entries.take(n as int) == entries,
                !over(n as nat, self.max_attributes),
                first_too_long(entries.take(i as int), self.max_attribute_len) is None,
                total == capped(total_len(entries.take(i as int))),
            decreases n - i,
        {
            let key: usize = attributes.key_at(i).as_bytes().len();
            let value: usize = attributes.value_at(i).as_bytes().len();
            proof {
                let next = entries.take(i + 1);
                assert(next.drop_last() =~= entries.take(i as int));
                if over(key as nat, self.max_attribute_len) || over(value as nat, self.max_attribute_len) {
                    lemma_first_too_long(entries, self.max_attribute_len, i + 1);
                }
            }
            if let Err(e) = self.check_len(key) {
                return Err(e);
            }
            if let Err(e) = self.check_len(value) {
                return Err(e);
            }
            total = total.saturating_add(key).saturating_add(value);
            i = i + 1;
        }
        if let Err(e) = self.check_total(total) {
            return Err(e);
        }
        match self.check_content(content_len) {
            Ok(_) => Ok(()),
            Err(e) => Err(e),
        }
    }
}

/// What is too long in a prefix is too long in the whole.
proof fn lemma_first_too_long(entries: Entries, limit: Option<usize>, i: int)
    requires
        0 <= i <= entries.len(),
        first_too_long(entries.take(i), limit) is Some,
    ensures
        first_too_long(entries, limit) == first_too_long(entries.take(i), limit),
    decreases entries.len() - i,
{
    if i < entries.len() {
        let next = entries.take(i + 1);
        assert(next.drop_last() =~= entries.take(i));
        lemma_first_too_long(entries, limit, i + 1);
    } else {
        assert(entries.take(i) =~= entries);
    }
}

impl Default for Limits {
    fn default() -> (limits: Limits)
        ensures
            limits == (Limits {
                max_attributes: Some(4096usize),
                max_attribute_len: Some(0x10_0000usize),
                max_total_attribute_len: Some(0x20_0000usize),
                max_content_len: None,
            }),
    {
        Limits::recommended()
    }
}

} // verus!
