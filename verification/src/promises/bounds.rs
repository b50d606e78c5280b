//! What limits let through.

use vstd::prelude::*;

use crate::attributes::Attributes;
use crate::attributes::{sorted_entries, AttributeMap, Entries};
use crate::error::{Error, Result};
use crate::flow_file::FlowFile;
use crate::limits::{first_too_long, total_len, Limits};
use super::layout::{in_order, lemma_head, size_of_text};
use super::parsing::{attributes_allowed, bulk, field, lemma_unspelled, none_too_long, size_allowed};

verus! {

proof fn lemma_bulk_push(entries: Entries)
    requires
        entries.len() > 0,
    ensures
        bulk(entries) == bulk(entries.drop_last()) + size_of_text(entries.last().0) + size_of_text(entries.last().1),
    decreases entries.len(),
{
    let others = entries.drop_first();
    let less = entries.drop_last();
    if entries.len() == 1 {
        assert(others =~= Seq::empty());
        assert(less =~= Seq::empty());
    } else {
        lemma_bulk_push(others);
        assert(others.drop_last() =~= less.drop_first());
        assert(others.last() == entries.last());
        assert(less[0] == entries[0]);
    }
}

proof fn lemma_bulk(entries: Entries)
    ensures
        total_len(entries) == bulk(entries),
    decreases entries.len(),
{
    if entries.len() > 0 {
        lemma_bulk_push(entries);
        lemma_bulk(entries.drop_last());
    }
}

/// The key or the value at place `j` is the first that is too long.
pub open spec fn first_long(entries: Entries, limit: usize, j: int) -> bool {
    &&& 0 <= j < 2 * entries.len()
    &&& field(entries, j) > limit
    &&& forall|k: int| 0 <= k < j ==> #[trigger] field(entries, k) <= limit
}

/// The first key or value that is too long takes so many bytes.
pub open spec fn is_first_long(entries: Entries, limit: usize, len: usize) -> bool {
    exists|j: int| #[trigger] first_long(entries, limit, j) && len == field(entries, j)
}

/// The complaint of a check about attributes: there are too many of them, or the
/// first key or value that is too long is named, or, with none, how long they
/// are together.
pub open spec fn check_complains(e: Error, entries: Entries, limits: Limits) -> bool {
    if limits.max_attributes matches Some(most) && entries.len() > most {
        e matches Error::TooManyAttributes { count, limit } && count == entries.len() && limits.max_attributes == Some(limit)
    } else if !none_too_long(entries, limits.max_attribute_len) {
        &&& e matches Error::AttributeTooLong { len, limit }
        &&& limits.max_attribute_len == Some(limit)
        &&& is_first_long(entries, limit, len)
    } else {
        &&& e matches Error::HeaderTooLarge { len, limit }
        &&& limits.max_total_attribute_len == Some(limit)
        &&& len > limit
        &&& len == if bulk(entries) <= usize::MAX {
            bulk(entries)
        } else {
            usize::MAX as nat
        }
    }
}

#[verifier::spinoff_prover]
#[verifier::rlimit(40)]
proof fn lemma_too_long(entries: Entries, limit: Option<usize>)
    ensures
        first_too_long(entries, limit) is None <==> none_too_long(entries, limit),
        first_too_long(entries, limit) matches Some(len) ==> limit is Some && exists|j: int| #[trigger]
            first_long(entries, limit->0, j) && len == field(entries, j),
    decreases entries.len(),
{
    if entries.len() > 0 {
        let less = entries.drop_last();
        lemma_too_long(less, limit);
        let last = entries.len() - 1;
        assert(entries[last] == entries.last());
        assert forall|j: int| 0 <= j < 2 * less.len() implies #[trigger] field(entries, j) == field(less, j) by {
            assert(less[j / 2] == entries[j / 2]);
        }
        let at = 2 * last;
        assert(at / 2 == last && at % 2 == 0 && (at + 1) / 2 == last && (at + 1) % 2 == 1);
        assert(field(entries, at) == size_of_text(entries[last].0));
        assert(field(entries, at + 1) == size_of_text(entries[last].1));
        if let Some(len) = first_too_long(less, limit) {
            let j = choose|j: int| #[trigger] first_long(less, limit->0, j) && len == field(less, j);
            assert(first_long(entries, limit->0, j)) by {
                assert forall|k: int| 0 <= k < j implies #[trigger] field(entries, k) <= limit->0 by {
                    assert(field(less, k) <= limit->0);
                }
            }
            assert(!none_too_long(entries, limit)) by {
                let i = j / 2;
                assert(entries[i] == less[i]);
                assert(size_of_text(entries[i].0) > limit->0 || size_of_text(entries[i].1) > limit->0);
            }
        } else {
            if first_too_long(entries, limit) is None {
                assert(none_too_long(entries, limit)) by {
                    if let Some(most) = limit {
                        assert forall|i: int| 0 <= i < entries.len() implies size_of_text(#[trigger] entries[i].0) <= most && size_of_text(
                            entries[i].1,
                        ) <= most by {
                            if i < last {
                                assert(less[i] == entries[i]);
                            }
                        }
                    }
                }
            } else {
                assert(size_of_text(entries[last].0) > limit->0 || size_of_text(entries[last].1) > limit->0);
                let most = limit->0;
                let len = first_too_long(entries, limit)->0;
                assert forall|k: int| 0 <= k < at implies #[trigger] field(entries, k) <= most by {
                    assert(less[k / 2] == entries[k / 2]);
                    assert(size_of_text(less[k / 2].0) <= most && size_of_text(less[k / 2].1) <= most);
                }
                if size_of_text(entries[last].0) > most {
                    assert(first_long(entries, most, at));
                } else {
                    assert forall|k: int| 0 <= k < at + 1 implies #[trigger] field(entries, k) <= most by {
                        assert(k < at || k == at);
                    }
                    assert(first_long(entries, most, at + 1));
                }
            }
        }
    }
}

/// A check passes exactly where there are at most as many attributes as there
/// may be, each key and value is at most as long, all of them together are, and
/// the content is at most as large. With acceptable attributes and a content
/// above its limit the answer names the size and the limit, and otherwise it
/// says what is wrong with the attributes.
pub proof fn law_a_check_compares_with_each_limit(limits: &Limits, attributes: &Attributes, content_len: u64, r: Result<()>) -> (entries: Entries)
    requires
        attributes@.dom().finite(),
        attributes@.len() <= usize::MAX,
        forall|k: Seq<char>| #[trigger] attributes@.dom().contains(k) ==> size_of_text(k) <= usize::MAX && size_of_text(attributes@[k]) <= usize::MAX,
        call_ensures(Limits::check, (limits, attributes, content_len), r),
    ensures
        in_order(entries, attributes@),
        r is Ok <==> attributes_allowed(entries, *limits) && size_allowed(content_len, *limits),
        attributes_allowed(entries, *limits) && !size_allowed(content_len, *limits) ==> {
            &&& r matches Err(Error::ContentTooLarge { size, limit })
            &&& size == content_len
            &&& limits.max_content_len == Some(limit)
        },
        !attributes_allowed(entries, *limits) ==> (r matches Err(e) && check_complains(e, entries, *limits)),
{
    let entries = lemma_head(attributes@, content_len);
    lemma_verdict(attributes@, entries, content_len, *limits);
    entries
}

/// What is decided about attributes and a content size.
pub proof fn lemma_verdict(attributes: AttributeMap, entries: Entries, content_len: u64, limits: Limits)
    requires
        in_order(entries, attributes),
        entries == sorted_entries(attributes),
    ensures
        limits.verdict(attributes, content_len) is Ok <==> attributes_allowed(entries, limits) && size_allowed(content_len, limits),
        attributes_allowed(entries, limits) && !size_allowed(content_len, limits) ==> limits.verdict(attributes, content_len)
            == Err::<(), Error>(Error::ContentTooLarge { size: content_len, limit: limits.max_content_len->0 }),
        !attributes_allowed(entries, limits) && attributes.len() <= usize::MAX && (forall|k: Seq<char>| #[trigger]
            attributes.dom().contains(k) ==> size_of_text(k) <= usize::MAX && size_of_text(attributes[k]) <= usize::MAX) ==> {
            &&& limits.verdict(attributes, content_len) matches Err(e)
            &&& check_complains(e, entries, limits)
        },
{
    lemma_bulk(entries);
    lemma_too_long(entries, limits.max_attribute_len);
    if !attributes_allowed(entries, limits) && attributes.len() <= usize::MAX && (forall|k: Seq<char>| #[trigger]
        attributes.dom().contains(k) ==> size_of_text(k) <= usize::MAX && size_of_text(attributes[k]) <= usize::MAX) {
        let e = limits.verdict(attributes, content_len)->Err_0;
        if limits.max_attributes matches Some(most) && entries.len() > most {
            assert(check_complains(e, entries, limits));
        } else if !none_too_long(entries, limits.max_attribute_len) {
            let len = first_too_long(entries, limits.max_attribute_len)->0;
            let most = limits.max_attribute_len->0;
            let j = choose|j: int| #[trigger] first_long(entries, most, j) && len == field(entries, j);
            assert(attributes.dom().contains(entries[j / 2].0));
            assert(len <= usize::MAX);
            assert(e == (Error::AttributeTooLong { len: len as usize, limit: most }));
            assert(first_long(entries, most, j) && len as usize == field(entries, j));
            assert(is_first_long(entries, most, len as usize));
            assert(check_complains(e, entries, limits));
        } else {
            assert(e is HeaderTooLarge);
            assert(check_complains(e, entries, limits));
        }
    }
}

/// A content that is allowed is at most the limit, and one above it is never
/// let through, by a check or by reading a header that declares it.
pub proof fn law_no_content_above_its_limit(
    limits: Limits,
    limit: u64,
    attributes: &Attributes,
    content_len: u64,
    checked: Result<()>,
    bytes: &[u8],
    read: Result<FlowFile<Vec<u8>>>,
)
    requires
        limits.max_content_len == Some(limit),
        call_ensures(Limits::check, (&limits, attributes, content_len), checked),
        call_ensures(FlowFile::<Vec<u8>>::from_bytes_with_limits, (bytes, limits), read),
    ensures
        checked is Ok ==> content_len <= limit,
        read matches Ok(f) ==> f.size <= limit && f.content@.len() <= limit,
{
    if read is Ok {
        let entries = lemma_unspelled(bytes@, limits);
    }
}

/// Nothing is above no limits.
pub proof fn law_no_limits_let_everything_through(limits: Limits, attributes: &Attributes, content_len: u64, r: Result<()>)
    requires
        attributes@.dom().finite(),
        call_ensures(Limits::unlimited, (), limits),
        call_ensures(Limits::check, (&limits, attributes, content_len), r),
    ensures
        r is Ok,
{
    let entries = lemma_head(attributes@, content_len);
    lemma_too_long(entries, None);
}

/// The limits recommended for untrusted input: 4096 attributes, 1 MiB for each
/// key and value, 2 MiB for all, and any content.
pub proof fn law_the_recommended_limits(limits: Limits, given: Limits)
    requires
        call_ensures(Limits::recommended, (), limits),
        call_ensures(Limits::default, (), given),
    ensures
        limits.max_attributes == Some(4096usize),
        limits.max_attribute_len == Some(1048576usize),
        limits.max_total_attribute_len == Some(2097152usize),
        limits.max_content_len is None,
        given == limits,
{
}

/// Setting a limit sets that one and keeps the others.
pub proof fn law_a_limit_is_set_alone(
    limits: Limits,
    count: Option<usize>,
    with_count: Limits,
    len: Option<usize>,
    with_len: Limits,
    total: Option<usize>,
    with_total: Limits,
    content: Option<u64>,
    with_content: Limits,
)
    requires
        call_ensures(Limits::with_max_attributes, (limits, count), with_count),
        call_ensures(Limits::with_max_attribute_len, (limits, len), with_len),
        call_ensures(Limits::with_max_total_attribute_len, (limits, total), with_total),
        call_ensures(Limits::with_max_content_len, (limits, content), with_content),
    ensures
        with_count.max_attributes == count,
        with_count.max_attribute_len == limits.max_attribute_len,
        with_count.max_total_attribute_len == limits.max_total_attribute_len,
        with_count.max_content_len == limits.max_content_len,
        with_len.max_attributes == limits.max_attributes,
        with_len.max_attribute_len == len,
        with_len.max_total_attribute_len == limits.max_total_attribute_len,
        with_len.max_content_len == limits.max_content_len,
        with_total.max_attributes == limits.max_attributes,
        with_total.max_attribute_len == limits.max_attribute_len,
        with_total.max_total_attribute_len == total,
        with_total.max_content_len == limits.max_content_len,
        with_content.max_attributes == limits.max_attributes,
        with_content.max_attribute_len == limits.max_attribute_len,
        with_content.max_total_attribute_len == limits.max_total_attribute_len,
        with_content.max_content_len == content,
{
}

/// A limit is told as it was set.
pub proof fn law_a_limit_is_told_as_it_was_set(
    limits: &Limits,
    count: Option<usize>,
    len: Option<usize>,
    total: Option<usize>,
    content: Option<u64>,
)
    requires
        call_ensures(Limits::max_attributes, (limits,), count),
        call_ensures(Limits::max_attribute_len, (limits,), len),
        call_ensures(Limits::max_total_attribute_len, (limits,), total),
        call_ensures(Limits::max_content_len, (limits,), content),
    ensures
        count == limits.max_attributes,
        len == limits.max_attribute_len,
        total == limits.max_total_attribute_len,
        content == limits.max_content_len,
{
}

} // verus!
