//! What holds of the library as a whole.

use vstd::prelude::*;
use vstd::utf8::*;

use crate::attr;
use crate::attributes::{insert_all, lemma_entries_map, lemma_sorted_exists, sorted_entries, AttributeMap, Entries};
use crate::builder::defragmented;
use crate::cli::{extracted, CliError};
use crate::decode::{content_size, decode_header, field_len, objection, pairs, text, Outcome, Refusal, TextOutcome};
use crate::error::{from_io, into_io};
use crate::error::{Error, ErrorKind, IoError, Result};
use crate::flow_file::FlowFile;
use crate::flow_file::{parses_as, stream_wire, Model};
use crate::format::{
    be_bytes, be_value, encodable, encodable_entries, encodable_text, entries_wire, field_len_wire, header_wire,
    lemma_be_bytes, lemma_be_value, lemma_encodable, lemma_pow256, magic, text_wire,
};
use crate::fragments::{default_keys, without_keys, Keys, Split};
use crate::http::{ChunkEvent, ExactLength};
use crate::io::{skip_up_to, take_up_to, Reader};
use crate::json::{described_by_reading, Repr, ReprError};
use crate::limits::Limits;
use crate::limits::{capped, first_too_long, no_limits, over, total_len};
use crate::sync::{next_buffered, read_outcome, wholly_read, write_outcome};

verus! {

/// A field length reads back as what was written, on both sides of the
/// boundary between its two forms, whatever follows it.
pub proof fn law_field_length_round_trips(len: nat, rest: Seq<u8>)
    requires
        len <= u32::MAX,
    ensures
        field_len(field_len_wire(len) + rest) == Some((len, rest)),
{
    lemma_pow256();
    let bytes = field_len_wire(len) + rest;
    lemma_be_bytes(len, 2);
    lemma_be_bytes(len, 4);
    if len < 0xFFFF {
        assert(bytes.take(2) =~= be_bytes(len, 2));
        assert(bytes.skip(2) =~= rest);
    } else {
        assert(bytes.take(2) =~= seq![0xFFu8, 0xFFu8]);
        assert(be_value(seq![0xFFu8, 0xFFu8]) == 0xFFFF) by {
            let marker = seq![0xFFu8, 0xFFu8];
            assert(marker.drop_last() =~= seq![0xFFu8]);
            assert(seq![0xFFu8].drop_last() =~= Seq::<u8>::empty());
            reveal_with_fuel(be_value, 3);
        }
        assert(bytes.subrange(2, 6) =~= be_bytes(len, 4));
        assert(bytes.skip(6) =~= rest);
    }
}

/// A field length takes two bytes below the marker and six from it on.
pub proof fn law_field_length_size(len: nat)
    ensures
        field_len_wire(len).len() == if len < 0xFFFF {
            2nat
        } else {
            6nat
        },
{
    lemma_be_bytes(len, 2);
    lemma_be_bytes(len, 4);
}

/// A key or value reads back as what was written, unless the limits object to
/// its length, and then none of its bytes are read.
proof fn lemma_text(chars: Seq<char>, rest: Seq<u8>, total: nat, limits: Limits)
    requires
        encodable_text(chars),
    ensures
        text(text_wire(chars) + rest, total, limits) == match objection(encode_utf8(chars).len(), total, limits) {
            Some(why) => TextOutcome::Stop { why, rest: encode_utf8(chars) + rest },
            None => TextOutcome::Text { chars, len: encode_utf8(chars).len(), rest },
        },
{
    let bytes = encode_utf8(chars);
    let n = bytes.len();
    assert(text_wire(chars) + rest =~= field_len_wire(n) + (bytes + rest));
    law_field_length_round_trips(n, bytes + rest);
    assert((bytes + rest).take(n as int) =~= bytes);
    assert((bytes + rest).skip(n as int) =~= rest);
    encode_utf8_valid_utf8(chars);
    encode_utf8_decode_utf8(chars);
}

pub(crate) proof fn lemma_regroup(a: Seq<u8>, b: Seq<u8>, c: Seq<u8>, d: Seq<u8>)
    ensures
        (a + b + c) + d == a + (b + (c + d)),
{
    assert((a + b + c) + d =~= a + (b + (c + d)));
}

pub(crate) proof fn lemma_front_wire(entries: Entries)
    requires
        entries.len() > 0,
    ensures
        entries_wire(entries) == text_wire(entries[0].0) + text_wire(entries[0].1) + entries_wire(entries.drop_first()),
    decreases entries.len(),
{
    let rest = entries.drop_first();
    let less = entries.drop_last();
    let k = text_wire(entries[0].0);
    let v = text_wire(entries[0].1);
    if entries.len() == 1 {
        assert(less =~= Seq::empty());
        assert(rest =~= Seq::empty());
        assert(Seq::<u8>::empty() + k + v =~= k + v + Seq::<u8>::empty());
    } else {
        lemma_front_wire(less);
        assert(less.drop_first() =~= rest.drop_last());
        let middle = entries_wire(rest.drop_last());
        let k1 = text_wire(entries.last().0);
        let v1 = text_wire(entries.last().1);
        assert((k + v + middle) + k1 + v1 =~= k + v + (middle + k1 + v1));
    }
}

pub(crate) proof fn lemma_front_map(entries: Entries, before: AttributeMap)
    requires
        entries.len() > 0,
    ensures
        insert_all(before, entries) == insert_all(before.insert(entries[0].0, entries[0].1), entries.drop_first()),
    decreases entries.len(),
{
    let rest = entries.drop_first();
    let less = entries.drop_last();
    if entries.len() == 1 {
        assert(less =~= Seq::empty());
        assert(rest =~= Seq::empty());
        assert(insert_all(before, less) == before);
        assert(insert_all(before.insert(entries[0].0, entries[0].1), rest) == before.insert(entries[0].0, entries[0].1));
    } else {
        lemma_front_map(less, before);
        assert(less.drop_first() =~= rest.drop_last());
    }
}

proof fn lemma_front_total(entries: Entries)
    requires
        entries.len() > 0,
    ensures
        total_len(entries) == encode_utf8(entries[0].0).len() + encode_utf8(entries[0].1).len() + total_len(
            entries.drop_first(),
        ),
    decreases entries.len(),
{
    let rest = entries.drop_first();
    let less = entries.drop_last();
    if entries.len() == 1 {
        assert(less =~= Seq::empty());
        assert(rest =~= Seq::empty());
    } else {
        lemma_front_total(less);
        assert(less.drop_first() =~= rest.drop_last());
    }
}

proof fn lemma_front_too_long(entries: Entries, limit: Option<usize>)
    requires
        entries.len() > 0,
    ensures
        first_too_long(entries, limit) == (if over(encode_utf8(entries[0].0).len(), limit) {
            Some(encode_utf8(entries[0].0).len())
        } else if over(encode_utf8(entries[0].1).len(), limit) {
            Some(encode_utf8(entries[0].1).len())
        } else {
            first_too_long(entries.drop_first(), limit)
        }),
    decreases entries.len(),
{
    let rest = entries.drop_first();
    let less = entries.drop_last();
    if entries.len() == 1 {
        assert(less =~= Seq::empty());
        assert(rest =~= Seq::empty());
        assert(first_too_long(less, limit) is None);
        assert(first_too_long(rest, limit) is None);
    } else {
        lemma_front_too_long(less, limit);
        assert(less.drop_first() =~= rest.drop_last());
    }
}

/// Whether the limits let these attributes through, after `total` bytes of
/// others.
spec fn pass(entries: Entries, total: nat, limits: Limits) -> bool {
    &&& first_too_long(entries, limits.max_attribute_len) is None
    &&& !over(capped(total + total_len(entries)), limits.max_total_attribute_len)
}

/// Written attributes read back: all of them where the limits let them
/// through, and otherwise a refusal for the reason the limits give.
proof fn lemma_pairs(entries: Entries, rest: Seq<u8>, total: nat, before: AttributeMap, limits: Limits)
    requires
        encodable_entries(entries),
        !over(capped(total), limits.max_total_attribute_len),
    ensures
        pass(entries, total, limits) ==> pairs(
            entries_wire(entries) + rest,
            entries.len(),
            capped(total),
            before,
            limits,
        ) == content_size(rest, insert_all(before, entries), limits),
        !pass(entries, total, limits) ==> {
            &&& pairs(
                entries_wire(entries) + rest,
                entries.len(),
                capped(total),
                before,
                limits,
            ) matches Outcome::Refused { why, rest: unread }
            &&& why is Length || why is Total
            &&& why is Length ==> first_too_long(entries, limits.max_attribute_len) is Some
            &&& why is Total ==> limits.max_total_attribute_len is Some
        },
    decreases entries.len(),
{
    if entries.len() == 0 {
        assert(entries_wire(entries) + rest =~= rest);
    } else {
        let key = entries[0].0;
        let value = entries[0].1;
        let others = entries.drop_first();
        lemma_front_wire(entries);
        lemma_front_map(entries, before);
        lemma_front_total(entries);
        lemma_front_too_long(entries, limits.max_attribute_len);
        assert(encodable_text(entries[0].0) && encodable_text(entries[0].1));
        assert(encodable_entries(others)) by {
            assert forall|i: int| 0 <= i < others.len() implies encodable_text(#[trigger] others[i].0) && encodable_text(
                others[i].1,
            ) by {
                assert(others[i] == entries[i + 1]);
            }
        }
        let after_value = entries_wire(others) + rest;
        let after_key = text_wire(value) + after_value;
        lemma_regroup(text_wire(key), text_wire(value), entries_wire(others), rest);
        let total1 = total + encode_utf8(key).len();
        let total2 = total1 + encode_utf8(value).len();
        lemma_text(key, after_key, capped(total), limits);
        if objection(encode_utf8(key).len(), capped(total), limits) is None {
            assert(capped(capped(total) + encode_utf8(key).len()) == capped(total1));
            lemma_text(value, after_value, capped(total1), limits);
            if objection(encode_utf8(value).len(), capped(total1), limits) is None {
                assert(capped(capped(total1) + encode_utf8(value).len()) == capped(total2));
                lemma_pairs(others, rest, total2, before.insert(key, value), limits);
                assert(total2 + total_len(others) == total + total_len(entries));
            }
        }
    }
}

/// What the header of a flow file says is read back, whatever follows it: if
/// the limits allow the attributes and the size, exactly those, and otherwise
/// a refusal for the reason that [`Limits::check`] gives. Where two attribute
/// limits are exceeded the reader may meet the other one first.
pub proof fn law_check_matches_the_parser(attributes: AttributeMap, size: u64, rest: Seq<u8>, limits: Limits)
    requires
        encodable(attributes),
    ensures
        match limits.verdict(attributes, size) {
            Ok(_) => decode_header(header_wire(attributes, size) + rest, limits) == (Outcome::Accepted {
                attributes,
                size,
                rest,
            }),
            Err(e) => {
                &&& decode_header(header_wire(attributes, size) + rest, limits) matches Outcome::Refused {
                    why,
                    rest: unread,
                }
                &&& match e {
                    Error::TooManyAttributes { count, limit } => why == (Refusal::Count { count: count as nat, limit }),
                    Error::AttributeTooLong { .. } => why is Length || why is Total,
                    Error::HeaderTooLarge { .. } => why is Total,
                    _ => why == (Refusal::Content { size, limit: limits.max_content_len->0 }),
                }
                &&& why is Total ==> limits.max_total_attribute_len is Some
            },
        },
{
    lemma_sorted_exists(attributes);
    let entries = sorted_entries(attributes);
    lemma_encodable(attributes, entries);
    lemma_entries_map(entries);
    let tail = be_bytes(size as nat, 8) + rest;
    let after_count = entries_wire(entries) + tail;
    lemma_split_header(attributes, size, rest);
    law_field_length_round_trips(attributes.len(), after_count);
    if !over(attributes.len(), limits.max_attributes) {
        assert(!over(capped(0), limits.max_total_attribute_len));
        lemma_pairs(entries, tail, 0, Map::empty(), limits);
        lemma_tail(size, rest);
    }
}

pub(crate) proof fn lemma_tail(size: u64, rest: Seq<u8>)
    ensures
        ({
            let tail = be_bytes(size as nat, 8) + rest;
            &&& tail.len() >= 8
            &&& tail.skip(8) == rest
            &&& be_value(tail.take(8)) == size
        }),
{
    lemma_pow256();
    lemma_be_bytes(size as nat, 8);
    let tail = be_bytes(size as nat, 8) + rest;
    assert(tail.take(8) =~= be_bytes(size as nat, 8));
    assert(tail.skip(8) =~= rest);
}

pub(crate) proof fn lemma_split_header(attributes: AttributeMap, size: u64, rest: Seq<u8>)
    ensures
        ({
            let bytes = header_wire(attributes, size) + rest;
            &&& bytes.len() >= 7
            &&& bytes.take(7) == magic()
            &&& bytes.skip(7) == field_len_wire(attributes.len()) + (entries_wire(sorted_entries(attributes)) + (be_bytes(
                size as nat,
                8,
            ) + rest))
        }),
{
    let m = magic();
    let n = field_len_wire(attributes.len());
    let e = entries_wire(sorted_entries(attributes));
    let z = be_bytes(size as nat, 8);
    let bytes = header_wire(attributes, size) + rest;
    let after = n + (e + (z + rest));
    assert((m + n + e + z) + rest =~= m + after);
    assert((m + after).take(7) =~= m);
    assert((m + after).skip(7) =~= after);
}

/// What is written as a header is read back as the same attributes and size,
/// with everything that follows it left unread.
pub proof fn law_header_round_trips(attributes: AttributeMap, size: u64, rest: Seq<u8>)
    requires
        encodable(attributes),
    ensures
        decode_header(header_wire(attributes, size) + rest, no_limits()) == (Outcome::Accepted {
            attributes,
            size,
            rest,
        }),
{
    lemma_nothing_too_long(sorted_entries(attributes));
    law_check_matches_the_parser(attributes, size, rest, no_limits());
}

proof fn lemma_nothing_too_long(entries: Entries)
    ensures
        first_too_long(entries, None) is None,
    decreases entries.len(),
{
    if entries.len() > 0 {
        lemma_nothing_too_long(entries.drop_last());
    }
}

/// Anything this crate writes, it can read back: what a flow file serializes
/// to parses as that flow file and nothing else.
pub proof fn law_what_is_serialized_parses_back(f: Model, r: Result<FlowFile<Vec<u8>>>)
    requires
        f.serializable(),
        parses_as(f.wire(), no_limits(), r),
    ensures
        r matches Ok(g) && g@ == f,
{
    law_header_round_trips(f.attributes, f.size, f.content);
}

/// Parsing is a function of the bytes: whichever way they are handed over, the
/// answer is the same flow file or a refusal both times.
pub proof fn law_one_answer(bytes: Seq<u8>, limits: Limits, r: Result<FlowFile<Vec<u8>>>, s: Result<FlowFile<Vec<u8>>>)
    requires
        parses_as(bytes, limits, r),
        parses_as(bytes, limits, s),
    ensures
        r is Ok <==> s is Ok,
        r is Ok ==> r->Ok_0@ == s->Ok_0@,
        r is Err ==> r->Err_0.text() == s->Err_0.text(),
{
}

/// A parsed flow file declares the size that its content has.
pub proof fn law_a_parsed_size_is_the_content_size(bytes: Seq<u8>, limits: Limits, r: Result<FlowFile<Vec<u8>>>)
    requires
        parses_as(bytes, limits, r),
    ensures
        r matches Ok(f) ==> f.size == f.content@.len(),
{
}

/// How many bytes a flow file serializes to is known from the attributes and
/// the size alone.
pub proof fn law_serialized_length(f: Model)
    requires
        f.serializable(),
    ensures
        f.wire().len() == header_wire(f.attributes, f.size).len() + f.size,
{
}

/// Streaming a content out of a reader writes the bytes that serializing it in
/// memory gives.
pub proof fn law_streaming_writes_the_serialized_bytes(f: Model)
    requires
        f.serializable(),
    ensures
        write_outcome(header_wire(f.attributes, f.size), f.size, f.content, None, None) == (
            f.wire(),
            Ok::<u64, IoError>(f.size),
        ),
{
}

/// Reading a content back into memory undoes making a reader of it.
pub proof fn law_reading_undoes_wrapping(f: Model)
    requires
        f.serializable(),
    ensures
        read_outcome(f.content, None, f.size) == Ok::<Seq<u8>, IoError>(f.content),
{
    assert(f.content.take(f.size as int) =~= f.content);
}

/// Reading a stream gives the next flow file that was written to it and leaves
/// exactly what was written after it, whatever that is.
pub proof fn law_the_next_flow_file_of_a_stream(
    f: Model,
    rest: Seq<u8>,
    failure: Option<IoError>,
    r: Option<Result<FlowFile<Vec<u8>>>>,
    after: Seq<u8>,
)
    requires
        f.serializable(),
        next_buffered(f.wire() + rest, failure, no_limits(), r, after),
    ensures
        r matches Some(Ok(g)) && g@ == f,
        after == rest,
{
    assert(f.wire() + rest =~= header_wire(f.attributes, f.size) + (f.content + rest));
    law_header_round_trips(f.attributes, f.size, f.content + rest);
    assert((f.content + rest).take(f.size as int) =~= f.content);
    assert((f.content + rest).skip(f.size as int) =~= rest);
}

/// Where the next flow file of a stream starts does not depend on how much of
/// the content before it was read: with `n` of the `left` bytes read, skipping
/// the others ends in the same place as skipping all of them.
pub proof fn law_what_follows_a_content_stays_put(pending: Seq<u8>, left: u64, n: u64)
    requires
        n <= left,
        n <= pending.len(),
    ensures
        skip_up_to(pending.skip(n as int), (left - n) as u64) == skip_up_to(pending, left),
        pending.skip(n as int).len() >= left - n <==> pending.len() >= left,
{
    assert(skip_up_to(pending.skip(n as int), (left - n) as u64) =~= skip_up_to(pending, left));
}

/// A content takes exactly the declared size: behind a flow file that was
/// parsed out of a stream and consumed stands whatever was written after it,
/// and the next flow file is parsed from there.
pub proof fn law_a_consumed_content_leaves_what_follows(f: Model, rest: Seq<u8>)
    requires
        f.serializable(),
    ensures
        decode_header(f.wire() + rest, no_limits()) == (Outcome::Accepted {
            attributes: f.attributes,
            size: f.size,
            rest: f.content + rest,
        }),
        skip_up_to(f.content + rest, f.size) == rest,
{
    assert(f.wire() + rest =~= header_wire(f.attributes, f.size) + (f.content + rest));
    law_header_round_trips(f.attributes, f.size, f.content + rest);
    assert(skip_up_to(f.content + rest, f.size) =~= rest);
}

/// Concatenated flow files are read back in the order they were written, one
/// for each, and then the stream ends.
pub proof fn law_concatenated_flow_files_read_back(
    files: Seq<Model>,
    i: int,
    r: Option<Result<FlowFile<Vec<u8>>>>,
    after: Seq<u8>,
)
    requires
        forall|j: int| 0 <= j < files.len() ==> (#[trigger] files[j]).serializable(),
        0 <= i <= files.len(),
        next_buffered(stream_wire(files.skip(i)), None, no_limits(), r, after),
    ensures
        i < files.len() ==> {
            &&& r matches Some(Ok(g))
            &&& g@ == files[i]
            &&& after == stream_wire(files.skip(i + 1))
        },
        i == files.len() ==> r is None,
{
    let left = files.skip(i);
    if i < files.len() {
        assert(left[0] == files[i]);
        assert(left.drop_first() =~= files.skip(i + 1));
        law_the_next_flow_file_of_a_stream(files[i], stream_wire(files.skip(i + 1)), None, r, after);
    }
}

/// A truncation survives a trip through I/O and comes back as itself.
pub proof fn law_a_truncation_round_trips(expected: u64, actual: u64)
    ensures
        from_io(into_io(Error::SizeMismatch { expected, actual })) == (Error::SizeMismatch { expected, actual }),
{
}

/// An I/O error survives a trip through [`Error`].
pub proof fn law_an_io_error_survives(io: IoError)
    ensures
        into_io(Error::Io(io)) == io,
{
}

/// Every other error stays inside an I/O error once it has travelled through
/// one, and says the same there.
pub proof fn law_only_a_truncation_comes_back(e: Error)
    requires
        !(e is SizeMismatch),
        !(e is Io),
    ensures
        from_io(into_io(e)) == Error::Io(into_io(e)),
        from_io(into_io(e)).text() == e.text(),
{
    reveal_with_fuel(Error::text, 2);
    reveal_with_fuel(IoError::text, 2);
}

/// An error says the same wherever it is carried.
pub proof fn law_travelling_keeps_the_message(e: Error)
    ensures
        into_io(e).text() == e.text(),
        from_io(into_io(e)).text() == e.text(),
{
    reveal_with_fuel(Error::text, 3);
    reveal_with_fuel(IoError::text, 3);
}

/// The keys of a split are told apart from each other, and from the two
/// attributes that a split sets for itself.
pub open spec fn keys_apart(keys: Keys) -> bool {
    &&& keys.identifier != keys.index
    &&& keys.identifier != keys.count
    &&& keys.identifier != keys.original_filename
    &&& keys.index != keys.count
    &&& keys.index != keys.original_filename
    &&& keys.count != keys.original_filename
    &&& keys.identifier != attr::FILENAME@
    &&& keys.index != attr::FILENAME@
    &&& keys.count != attr::FILENAME@
    &&& keys.original_filename != attr::FILENAME@
    &&& keys.identifier != attr::UUID@
    &&& keys.index != attr::UUID@
    &&& keys.count != attr::UUID@
    &&& keys.original_filename != attr::UUID@
}

/// NiFi's own keys are told apart.
pub proof fn law_default_keys_are_apart()
    ensures
        keys_apart(default_keys()),
        attr::UUID@ != attr::FILENAME@,
{
    reveal_strlit("uuid");
    reveal_strlit("filename");
    reveal_strlit("fragment.identifier");
    reveal_strlit("fragment.index");
    reveal_strlit("fragment.count");
    reveal_strlit("segment.original.filename");
    assert("uuid"@.len() == 4);
    assert("filename"@.len() == 8);
    assert("fragment.identifier"@.len() == 19);
    assert("fragment.index"@.len() == 14);
    assert("fragment.count"@.len() == 14);
    assert("fragment.index"@[9] == 'i');
    assert("fragment.count"@[9] == 'c');
    assert("segment.original.filename"@.len() == 25);
}

/// Undoing a split gives back the parent's attributes, whichever part it is
/// done on and whatever that part was named: the fragment attributes are gone,
/// the parent's file name is back, and the rest is inherited, but for the
/// identity of the part.
pub proof fn law_defragment_undoes_a_split(
    parent: AttributeMap,
    identifier: Seq<char>,
    keys: Keys,
    index: u64,
    count: Option<u64>,
    uuid: Seq<char>,
    name: Seq<char>,
)
    requires
        keys_apart(keys),
        parent.dom().contains(attr::FILENAME@),
    ensures
        ({
            let split = Split { keys, ..Split::start(parent, identifier) };
            let part = split.part(index, count, uuid).insert(attr::FILENAME@, name);
            let kept = without_keys(without_keys(parent, default_keys()), keys);
            defragmented(part, keys) == kept.insert(attr::UUID@, uuid)
        }),
{
    law_default_keys_are_apart();
    let split = Split { keys, ..Split::start(parent, identifier) };
    let part = split.part(index, count, uuid).insert(attr::FILENAME@, name);
    let kept = without_keys(without_keys(parent, default_keys()), keys);
    assert(part.dom().contains(keys.original_filename));
    assert(part[keys.original_filename] == parent[attr::FILENAME@]);
    assert(kept.dom().contains(attr::FILENAME@));
    assert(kept[attr::FILENAME@] == parent[attr::FILENAME@]);
    assert(defragmented(part, keys) =~= kept.insert(attr::UUID@, uuid));
}

/// A parent without a file name has none to give back: the part keeps its own.
pub proof fn law_defragment_keeps_a_name_without_a_split_name(
    parent: AttributeMap,
    identifier: Seq<char>,
    keys: Keys,
    index: u64,
    count: Option<u64>,
    uuid: Seq<char>,
    name: Seq<char>,
)
    requires
        keys_apart(keys),
        !parent.dom().contains(attr::FILENAME@),
    ensures
        ({
            let split = Split { keys, ..Split::start(parent, identifier) };
            let part = split.part(index, count, uuid).insert(attr::FILENAME@, name);
            let kept = without_keys(without_keys(parent, default_keys()), keys);
            defragmented(part, keys) == kept.insert(attr::UUID@, uuid).insert(attr::FILENAME@, name)
        }),
{
    law_default_keys_are_apart();
    let split = Split { keys, ..Split::start(parent, identifier) };
    let part = split.part(index, count, uuid).insert(attr::FILENAME@, name);
    let kept = without_keys(without_keys(parent, default_keys()), keys);
    assert(!part.dom().contains(keys.original_filename));
    assert(defragmented(part, keys) =~= kept.insert(attr::UUID@, uuid).insert(attr::FILENAME@, name));
}

/// Attributes that no split wrote are left alone by undoing one.
pub proof fn law_defragment_leaves_other_attributes_alone(attributes: AttributeMap, keys: Keys)
    requires
        !attributes.dom().contains(keys.identifier),
        !attributes.dom().contains(keys.index),
        !attributes.dom().contains(keys.count),
        !attributes.dom().contains(keys.original_filename),
    ensures
        defragmented(attributes, keys) == attributes,
{
    assert(defragmented(attributes, keys) =~= attributes);
}

/// An attribute set for a whole split cannot displace what the split says of
/// each part.
pub proof fn law_fragment_attributes_cannot_be_displaced(
    split: Split,
    key: Seq<char>,
    value: Seq<char>,
    index: u64,
    count: Option<u64>,
    uuid: Seq<char>,
)
    requires
        key == split.keys.identifier || key == split.keys.index || key == split.keys.count || key
            == split.keys.original_filename,
    ensures
        (Split { attributes: split.attributes.insert(key, value), ..split }).part(index, count, uuid) == split.part(
            index,
            count,
            uuid,
        ),
{
    let other = Split { attributes: split.attributes.insert(key, value), ..split };
    assert(without_keys(other.attributes, other.keys) =~= without_keys(split.attributes, split.keys));
}

/// An attribute set for a whole split reaches every part, unless the split has
/// its own say about it.
pub proof fn law_a_set_wide_attribute_reaches_every_part(
    split: Split,
    key: Seq<char>,
    value: Seq<char>,
    index: u64,
    count: Option<u64>,
    uuid: Seq<char>,
)
    requires
        key != split.keys.identifier,
        key != split.keys.index,
        key != split.keys.count,
        key != split.keys.original_filename,
        key != attr::UUID@,
    ensures
        ({
            let part = (Split { attributes: split.attributes.insert(key, value), ..split }).part(index, count, uuid);
            part.dom().contains(key) && part[key] == value
        }),
{
}

/// A part never inherits what an earlier split said: under each key of the
/// split it carries what this split says, or nothing.
pub proof fn law_a_new_split_supersedes_the_old(split: Split, index: u64, count: Option<u64>, uuid: Seq<char>)
    requires
        keys_apart(split.keys),
    ensures
        ({
            let part = split.part(index, count, uuid);
            &&& part.dom().contains(split.keys.identifier) && part[split.keys.identifier] == split.identifier
            &&& part.dom().contains(split.keys.index) && part[split.keys.index] == crate::text::decimal(index as nat)
            &&& part.dom().contains(split.keys.count) == (count is Some)
            &&& part.dom().contains(split.keys.original_filename) == (split.original_filename is Some)
            &&& part.dom().contains(attr::UUID@) && part[attr::UUID@] == uuid
        }),
{
}

/// A flow file comes back from its own description.
pub proof fn law_a_description_round_trips(
    f: Model,
    repr: Repr,
    r: core::result::Result<FlowFile<Vec<u8>>, ReprError>,
)
    requires
        f.size == f.content.len(),
        repr.describes(f),
        repr.comes_to(r),
    ensures
        r matches Ok(g) && g@ == f,
{
}

/// A flow file has one description, whether its content was in memory or came
/// from a reader.
pub proof fn law_one_description(f: Model, one: Repr, other: Repr)
    requires
        one.describes(f),
        other.describes(f),
    ensures
        one.size == other.size,
        one.attributes@ == other.attributes@,
        one.content@ == other.content@,
{
}

/// A flow file whose content has to be read for it can be described once. A
/// second attempt finds no content left and fails, rather than describing a
/// flow file with the wrong content.
pub proof fn law_describing_by_reading_works_once<R: Reader>(
    flow_file: FlowFile<R>,
    first: core::result::Result<Repr, Error>,
    rest: FlowFile<R>,
    second: core::result::Result<Repr, Error>,
    left: FlowFile<R>,
)
    requires
        0 < flow_file.size,
        flow_file.content.pending().len() <= flow_file.size,
        described_by_reading(flow_file, first, rest),
        described_by_reading(rest, second, left),
    ensures
        second is Err,
{
}

/// A response body that ends short of its `Content-Length` fails, and one that
/// does not is complete: whatever the chunks, the bytes still owed at the end
/// are those that were promised and did not come.
pub proof fn law_an_outgoing_body_owes_what_did_not_come(body: ExactLength, chunks: Seq<u64>)
    requires
        !body.done,
    ensures
        !after_chunks(body, chunks).done,
        after_chunks(body, chunks).declared == body.declared,
        after_chunks(body, chunks).remaining == if total_bytes(chunks) < body.remaining {
            body.remaining - total_bytes(chunks)
        } else {
            0
        },
    decreases chunks.len(),
{
    if chunks.len() > 0 {
        law_an_outgoing_body_owes_what_did_not_come(body, chunks.drop_last());
    }
}

/// How many bytes the chunks hold.
pub open spec fn total_bytes(chunks: Seq<u64>) -> nat
    decreases chunks.len(),
{
    if chunks.len() == 0 {
        0
    } else {
        total_bytes(chunks.drop_last()) + chunks.last() as nat
    }
}

/// An outgoing body after some chunks.
pub open spec fn after_chunks(body: ExactLength, chunks: Seq<u64>) -> ExactLength
    decreases chunks.len(),
{
    if chunks.len() == 0 {
        body
    } else {
        after_chunks(body, chunks.drop_last()).after(ChunkEvent::Chunk(chunks.last()))
    }
}

/// A field length that is cut short is none; one that is not is the same.
proof fn lemma_cut_field(bytes: Seq<u8>, cut: int)
    requires
        0 <= cut <= bytes.len(),
        field_len(bytes) is Some,
    ensures
        ({
            let (n, rest) = field_len(bytes)->0;
            let used = bytes.len() - rest.len();
            &&& 0 < used
            &&& n <= u32::MAX
            &&& cut < used ==> field_len(bytes.take(cut)) is None
            &&& cut >= used ==> field_len(bytes.take(cut)) == Some((n, rest.take(cut - used)))
        }),
{
    lemma_pow256();
    lemma_be_value(bytes.take(2));
    let part = bytes.take(cut);
    if cut >= 2 {
        assert(part.take(2) =~= bytes.take(2));
        assert(part.skip(2) =~= bytes.skip(2).take(cut - 2));
    }
    if bytes.len() >= 6 {
        lemma_be_value(bytes.subrange(2, 6));
    }
    if cut >= 6 {
        assert(part.subrange(2, 6) =~= bytes.subrange(2, 6));
        assert(part.skip(6) =~= bytes.skip(6).take(cut - 6));
    }
}

/// A key or value that is cut short is noticed; one that is not is the same.
proof fn lemma_cut_text(bytes: Seq<u8>, total: nat, limits: Limits, cut: int)
    requires
        0 <= cut <= bytes.len(),
        text(bytes, total, limits) is Text,
    ensures
        text(bytes, total, limits) matches TextOutcome::Text { chars, len, rest } && {
            let used = bytes.len() - rest.len();
            &&& 0 < used
            &&& cut < used ==> (text(bytes.take(cut), total, limits) matches TextOutcome::Stop { why, .. }
                && why is Truncated)
            &&& cut >= used ==> text(bytes.take(cut), total, limits) == (TextOutcome::Text {
                chars,
                len,
                rest: rest.take(cut - used),
            })
            &&& encodable_text(chars)
        },
{
    lemma_cut_field(bytes, cut);
    let (len, after) = field_len(bytes)->0;
    let head = bytes.len() - after.len();
    decode_utf8_encode_utf8(after.take(len as int));
    if cut >= head {
        let part = after.take(cut - head);
        if cut - head >= len {
            assert(part.take(len as int) =~= after.take(len as int));
            assert(part.skip(len as int) =~= after.skip(len as int).take(cut - head - len));
        }
    }
}

/// Attributes that are cut short are noticed; ones that are not are the same.
#[verifier::spinoff_prover]
#[verifier::rlimit(50)]
proof fn lemma_cut_pairs(bytes: Seq<u8>, left: nat, total: nat, before: AttributeMap, limits: Limits, cut: int)
    requires
        0 <= cut <= bytes.len(),
        pairs(bytes, left, total, before, limits) is Accepted,
    ensures
        pairs(bytes, left, total, before, limits) matches Outcome::Accepted { attributes, size, rest } && {
            let used = bytes.len() - rest.len();
            &&& 0 < used
            &&& cut < used ==> (pairs(bytes.take(cut), left, total, before, limits) matches Outcome::Refused {
                why,
                ..
            } && why is Truncated)
            &&& cut >= used ==> pairs(bytes.take(cut), left, total, before, limits) == (Outcome::Accepted {
                attributes,
                size,
                rest: rest.take(cut - used),
            })
        },
    decreases left,
{
    if left == 0 {
        if cut >= 8 {
            assert(bytes.take(cut).take(8) =~= bytes.take(8));
            assert(bytes.take(cut).skip(8) =~= bytes.skip(8).take(cut - 8));
        }
    } else {
        lemma_cut_text(bytes, total, limits, cut);
        if let TextOutcome::Text { chars: key, len, rest: after_key } = text(bytes, total, limits) {
            let used_key = bytes.len() - after_key.len();
            let total1 = capped(total + len);
            let cut1 = if cut >= used_key {
                cut - used_key
            } else {
                0
            };
            lemma_cut_text(after_key, total1, limits, cut1);
            if let TextOutcome::Text { chars: value, len: len2, rest: after_value } = text(after_key, total1, limits) {
                let used_value = after_key.len() - after_value.len();
                let cut2 = if cut1 >= used_value {
                    cut1 - used_value
                } else {
                    0
                };
                lemma_cut_pairs(
                    after_value,
                    (left - 1) as nat,
                    capped(total1 + len2),
                    before.insert(key, value),
                    limits,
                    cut2,
                );
            }
        }
    }
}

/// A header that is cut short anywhere is refused as such, and one that is not
/// reads the same whatever is cut off behind it.
pub proof fn law_a_cut_header_is_truncated(bytes: Seq<u8>, limits: Limits, cut: int)
    requires
        0 <= cut <= bytes.len(),
        decode_header(bytes, limits) is Accepted,
    ensures
        decode_header(bytes, limits) matches Outcome::Accepted { attributes, size, rest } && {
            let used = bytes.len() - rest.len();
            &&& cut < used ==> (decode_header(bytes.take(cut), limits) matches Outcome::Refused { why, .. }
                && why is Truncated)
            &&& cut >= used ==> decode_header(bytes.take(cut), limits) == (Outcome::Accepted {
                attributes,
                size,
                rest: rest.take(cut - used),
            })
        },
{
    let body = bytes.skip(7);
    if cut >= 7 {
        assert(bytes.take(cut).take(7) =~= bytes.take(7));
        assert(bytes.take(cut).skip(7) =~= body.take(cut - 7));
        lemma_cut_field(body, cut - 7);
    } else {
        lemma_cut_field(body, 0);
    }
    let (count, after) = field_len(body)->0;
    let head = body.len() - after.len();
    let cut1 = if cut - 7 >= head {
        cut - 7 - head
    } else {
        0
    };
    lemma_cut_pairs(after, count, 0, Map::empty(), limits, cut1);
}

/// A serialized flow file that is cut short anywhere is refused: as truncated
/// where the header is cut, and as a size mismatch, with the sizes, where the
/// content is.
pub proof fn law_a_truncated_flow_file_is_refused(f: Model, cut: int, r: Result<FlowFile<Vec<u8>>>)
    requires
        f.serializable(),
        0 <= cut < f.wire().len(),
        parses_as(f.wire().take(cut), no_limits(), r),
    ensures
        ({
            let header = header_wire(f.attributes, f.size).len();
            &&& cut < header ==> (r matches Err(Error::Io(io)) && io.kind == ErrorKind::UnexpectedEof)
            &&& cut >= header ==> r == Err::<FlowFile<Vec<u8>>, Error>(
                Error::SizeMismatch { expected: f.size, actual: (cut - header) as u64 },
            )
        }),
{
    law_header_round_trips(f.attributes, f.size, f.content);
    law_a_cut_header_is_truncated(f.wire(), no_limits(), cut);
}

/// Attributes that were read can be written.
proof fn lemma_read_attributes(bytes: Seq<u8>, left: nat, total: nat, before: AttributeMap, limits: Limits)
    requires
        before.dom().finite(),
        forall|k: Seq<char>| #[trigger] before.dom().contains(k) ==> encodable_text(k) && encodable_text(before[k]),
        pairs(bytes, left, total, before, limits) is Accepted,
    ensures
        pairs(bytes, left, total, before, limits) matches Outcome::Accepted { attributes, size, rest } && {
            &&& attributes.dom().finite()
            &&& attributes.len() <= before.len() + left
            &&& forall|k: Seq<char>| #[trigger]
                attributes.dom().contains(k) ==> encodable_text(k) && encodable_text(attributes[k])
        },
    decreases left,
{
    if left > 0 {
        lemma_cut_text(bytes, total, limits, 0);
        if let TextOutcome::Text { chars: key, len, rest: after_key } = text(bytes, total, limits) {
            let total1 = capped(total + len);
            lemma_cut_text(after_key, total1, limits, 0);
            if let TextOutcome::Text { chars: value, len: len2, rest: after_value } = text(after_key, total1, limits) {
                lemma_read_attributes(
                    after_value,
                    (left - 1) as nat,
                    capped(total1 + len2),
                    before.insert(key, value),
                    limits,
                );
            }
        }
    }
}

/// Whatever was parsed can be serialized, and parses back as the same flow
/// file. The bytes may differ: a header may repeat a key, or hold its
/// attributes in another order.
pub proof fn law_what_is_parsed_serializes_and_parses_back(
    bytes: Seq<u8>,
    limits: Limits,
    r: Result<FlowFile<Vec<u8>>>,
    again: Result<FlowFile<Vec<u8>>>,
)
    requires
        parses_as(bytes, limits, r),
        r is Ok,
        parses_as(r->Ok_0@.wire(), no_limits(), again),
    ensures
        r->Ok_0@.serializable(),
        again matches Ok(g) && g@ == r->Ok_0@,
{
    let f = r->Ok_0@;
    let (count, after) = field_len(bytes.skip(7))->0;
    lemma_cut_field(bytes.skip(7), 0);
    lemma_read_attributes(after, count, 0, Map::empty(), limits);
    law_what_is_serialized_parses_back(f, again);
}

/// One whole flow file comes out of a reader as it went in, and the reader is
/// left on the byte after it.
pub proof fn law_reading_a_whole_flow_file(
    f: Model,
    rest: Seq<u8>,
    failure: Option<IoError>,
    r: Result<FlowFile<Vec<u8>>>,
    after: Seq<u8>,
)
    requires
        f.serializable(),
        wholly_read(f.wire() + rest, failure, no_limits(), r, after),
    ensures
        r matches Ok(g) && g@ == f,
        after == rest,
{
    assert(f.wire() + rest =~= header_wire(f.attributes, f.size) + (f.content + rest));
    law_header_round_trips(f.attributes, f.size, f.content + rest);
    assert((f.content + rest).take(f.size as int) =~= f.content);
    assert((f.content + rest).skip(f.size as int) =~= rest);
}

/// The contents of some flow files, one after the other.
pub open spec fn contents(files: Seq<Model>) -> Seq<u8>
    decreases files.len(),
{
    if files.len() == 0 {
        Seq::empty()
    } else {
        files[0].content + contents(files.drop_first())
    }
}

/// Extracting the contents of a stream gives the contents of the flow files
/// that were written to it, in order, and nothing else.
#[verifier::spinoff_prover]
#[verifier::rlimit(40)]
pub proof fn law_extracting_gives_the_contents(
    files: Seq<Model>,
    out: Seq<u8>,
    r: core::result::Result<(), CliError>,
)
    requires
        forall|i: int| 0 <= i < files.len() ==> (#[trigger] files[i]).serializable(),
        extracted(stream_wire(files), None, no_limits(), None, out, r),
    ensures
        r is Ok,
        out == contents(files),
    decreases files.len(),
{
    if files.len() == 0 {
        assert(out =~= Seq::empty());
    } else {
        let f = files[0];
        assert(f.serializable());
        let others = files.drop_first();
        let more = stream_wire(others);
        let rest = f.content + more;
        assert(stream_wire(files) =~= header_wire(f.attributes, f.size) + rest);
        law_header_round_trips(f.attributes, f.size, rest);
        assert(rest.take(f.size as int) =~= f.content);
        assert(rest.skip(f.size as int) =~= more);
        assert(take_up_to(rest, f.size) =~= f.content);
        assert forall|i: int| 0 <= i < others.len() implies (#[trigger] others[i]).serializable() by {
            assert(others[i] == files[i + 1]);
        }
        law_extracting_gives_the_contents(others, out.skip(f.size as int), r);
        assert(out =~= f.content + out.skip(f.size as int));
    }
}

} // verus!
