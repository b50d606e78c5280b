//! What holds of streams of flow files.

use vstd::prelude::*;
use vstd::utf8::*;

use crate::async_io::ReadEvent;
use crate::attributes::{insert_all, lemma_entries_map, lemma_sorted_exists, sorted_entries, AttributeMap, Entries};
use crate::decode::{decode_header, field_len, pairs, text, Outcome, TextOutcome};
use crate::error::{ErrorKind, IoError};
use crate::flow_file::Model;
use crate::flowfiles::error::FlowFileParsingError;
use crate::flowfiles::header::{expressible, header_attempt};
use crate::flowfiles::iterator::{
    admits, planned, pursued, single, told, FlowFileIteratorState, StreamAction, StreamEvent, StreamPlan,
    StreamedFlowFile, TailStep,
};
use crate::flowfiles::parser::{attributed, encoded_size, keyed, parsed, piece, plus, sized, Parsed, Piece};
use crate::format::{
    be_bytes, encodable, encodable_entries, encodable_text, entries_wire, field_len_wire, header_wire, lemma_be_bytes,
    lemma_encodable, magic, text_wire,
};
use crate::io::{take_up_to, Reader};
use crate::laws::{
    law_field_length_round_trips, law_field_length_size, lemma_front_map, lemma_front_wire, lemma_regroup,
    lemma_split_header, lemma_tail,
};
use crate::limits::no_limits;

verus! {

/// A whole key or value is the same to both readers of headers, and what is
/// not whole is noticed by the one here no later than by what it reads next.
proof fn lemma_same_text(bytes: Seq<u8>, total: nat, failure: Option<IoError>)
    ensures
        text(bytes, total, no_limits()) matches TextOutcome::Text { chars, len, rest } ==> piece(bytes, failure)
            == (Piece::Text { chars, len, rest }),
        text(bytes, total, no_limits()) is Stop ==> piece(bytes, failure) is Stop || (piece(
            bytes,
            failure,
        ) matches Piece::Text { chars, len, rest } && rest.len() == 0),
{
    if let Some((len, rest)) = field_len(bytes) {
        if rest.len() < len {
            assert(rest.skip(rest.len() as int) =~= Seq::empty());
        }
    }
}

/// Nothing is left to read.
proof fn lemma_nothing_left(rest: Seq<u8>, failure: Option<IoError>)
    requires
        rest.len() == 0,
    ensures
        piece(rest, failure) is Stop,
{
}

/// With nothing left to read there is no header.
proof fn lemma_no_header(rest: Seq<u8>, left: nat, count: u64, before: AttributeMap, failure: Option<IoError>)
    requires
        rest.len() == 0,
    ensures
        attributed(rest, left, count, before, failure) is Malformed,
{
    lemma_nothing_left(rest, failure);
    reveal_with_fuel(keyed, 2);
    assert(keyed(piece(rest, failure), left, count, before, failure) is Malformed);
}

proof fn lemma_same_attributes(
    bytes: Seq<u8>,
    left: nat,
    total: nat,
    count: u64,
    before: AttributeMap,
    failure: Option<IoError>,
)
    ensures
        match pairs(bytes, left, total, before, no_limits()) {
            Outcome::Accepted { attributes, size, rest } => {
                &&& attributed(bytes, left, count, before, failure) matches Parsed::Header {
                    attributes: a,
                    size: s,
                    count: _,
                    rest: r,
                }
                &&& a == attributes
                &&& s == size
                &&& r == rest
            },
            Outcome::Refused { .. } => attributed(bytes, left, count, before, failure) is Malformed,
        },
    decreases left,
{
    if left > 0 {
        lemma_same_text(bytes, total, failure);
        match text(bytes, total, no_limits()) {
            TextOutcome::Text { chars: key, len, rest } => {
                let total1 = crate::limits::capped(total + len);
                let count1 = plus(count, len + encoded_size(len));
                lemma_same_text(rest, total1, failure);
                match text(rest, total1, no_limits()) {
                    TextOutcome::Text { chars: value, len: len2, rest: rest2 } => {
                        lemma_same_attributes(
                            rest2,
                            (left - 1) as nat,
                            crate::limits::capped(total1 + len2),
                            plus(count1, len2 + encoded_size(len2)),
                            before.insert(key, value),
                            failure,
                        );
                    },
                    TextOutcome::Stop { .. } => {
                        if let Piece::Text { chars: value, len: len2, rest: rest2 } = piece(rest, failure) {
                            lemma_no_header(
                                rest2,
                                (left - 1) as nat,
                                plus(count1, len2 + encoded_size(len2)),
                                before.insert(key, value),
                                failure,
                            );
                        }
                    },
                }
            },
            TextOutcome::Stop { .. } => {
                if let Piece::Text { chars, len, rest } = piece(bytes, failure) {
                    lemma_nothing_left(rest, failure);
                }
            },
        }
    }
}

/// Both readers of headers take the same bytes for a header, read the same
/// attributes and size out of it, and leave the same bytes after it.
pub proof fn law_one_header(bytes: Seq<u8>, failure: Option<IoError>)
    ensures
        match decode_header(bytes, no_limits()) {
            Outcome::Accepted { attributes, size, rest } => {
                &&& parsed(bytes, failure) matches Parsed::Header { attributes: a, size: s, count: _, rest: r }
                &&& a == attributes
                &&& s == size
                &&& r == rest
            },
            Outcome::Refused { .. } => !(parsed(bytes, failure) is Header),
        },
{
    if bytes.len() >= 7 && bytes.take(7) == magic() {
        if let Some((n, rest)) = field_len(bytes.skip(7)) {
            lemma_same_attributes(rest, n, 0, plus(7, encoded_size(n)), Map::empty(), failure);
        }
    }
}

proof fn lemma_plus(count: u64, a: nat, b: nat)
    ensures
        plus(plus(count, a), b) == plus(count, a + b),
{
}

/// A written key or value, read back.
proof fn lemma_piece(chars: Seq<char>, rest: Seq<u8>, failure: Option<IoError>)
    requires
        encodable_text(chars),
    ensures
        piece(text_wire(chars) + rest, failure) == (Piece::Text { chars, len: encode_utf8(chars).len(), rest }),
        text_wire(chars).len() == encode_utf8(chars).len() + encoded_size(encode_utf8(chars).len()),
{
    let bytes = encode_utf8(chars);
    let n = bytes.len();
    assert(text_wire(chars) + rest =~= field_len_wire(n) + (bytes + rest));
    law_field_length_round_trips(n, bytes + rest);
    law_field_length_size(n);
    assert((bytes + rest).take(n as int) =~= bytes);
    assert((bytes + rest).skip(n as int) =~= rest);
    encode_utf8_valid_utf8(chars);
    encode_utf8_decode_utf8(chars);
}

proof fn lemma_attributed(entries: Entries, tail: Seq<u8>, count: u64, before: AttributeMap, failure: Option<IoError>)
    requires
        encodable_entries(entries),
    ensures
        attributed(entries_wire(entries) + tail, entries.len(), count, before, failure) == sized(
            tail,
            plus(count, entries_wire(entries).len()),
            insert_all(before, entries),
            failure,
        ),
    decreases entries.len(),
{
    if entries.len() == 0 {
        assert(entries_wire(entries) + tail =~= tail);
    } else {
        let key = entries[0].0;
        let value = entries[0].1;
        let others = entries.drop_first();
        lemma_front_wire(entries);
        lemma_front_map(entries, before);
        assert(encodable_text(entries[0].0) && encodable_text(entries[0].1));
        assert(encodable_entries(others)) by {
            assert forall|i: int| 0 <= i < others.len() implies encodable_text(#[trigger] others[i].0) && encodable_text(
                others[i].1,
            ) by {
                assert(others[i] == entries[i + 1]);
            }
        }
        let after_value = entries_wire(others) + tail;
        let after_key = text_wire(value) + after_value;
        lemma_regroup(text_wire(key), text_wire(value), entries_wire(others), tail);
        lemma_piece(key, after_key, failure);
        lemma_piece(value, after_value, failure);
        let count1 = plus(count, text_wire(key).len());
        let count2 = plus(count1, text_wire(value).len());
        lemma_attributed(others, tail, count2, before.insert(key, value), failure);
        lemma_plus(count, text_wire(key).len(), text_wire(value).len());
        lemma_plus(count, text_wire(key).len() + text_wire(value).len(), entries_wire(others).len());
    }
}

/// What a flow file is written as is read back out of a stream, whatever
/// follows it and however the stream ends; and the number of bytes it is said
/// to take is the number of bytes it took.
pub proof fn law_a_streamed_flow_file_reads_back(f: Model, rest: Seq<u8>, failure: Option<IoError>)
    requires
        f.serializable(),
    ensures
        parsed(f.wire() + rest, failure) == (Parsed::Header {
            attributes: f.attributes,
            size: f.size,
            count: plus(0, f.wire().len()),
            rest: f.content + rest,
        }),
{
    lemma_sorted_exists(f.attributes);
    let entries = sorted_entries(f.attributes);
    lemma_encodable(f.attributes, entries);
    lemma_entries_map(entries);
    let after = f.content + rest;
    let n = f.attributes.len();
    let tail = be_bytes(f.size as nat, 8) + after;
    assert(f.wire() + rest =~= header_wire(f.attributes, f.size) + after);
    lemma_split_header(f.attributes, f.size, after);
    law_field_length_round_trips(n, entries_wire(entries) + tail);
    law_field_length_size(n);
    lemma_attributed(entries, tail, plus(7, encoded_size(n)), Map::empty(), failure);
    lemma_tail(f.size, after);
    lemma_be_bytes(f.size as nat, 8);
    lemma_plus(7, encoded_size(n), entries_wire(entries).len());
    lemma_plus(7, encoded_size(n) + entries_wire(entries).len(), 8 + f.size as nat);
}

proof fn lemma_all_expressible(entries: Entries)
    requires
        encodable_entries(entries),
    ensures
        expressible(entries) == (entries_wire(entries), true),
    decreases entries.len(),
{
    if entries.len() > 0 {
        let less = entries.drop_last();
        assert(encodable_entries(less)) by {
            assert forall|i: int| 0 <= i < less.len() implies encodable_text(#[trigger] less[i].0) && encodable_text(
                less[i].1,
            ) by {
                assert(less[i] == entries[i]);
            }
        }
        lemma_all_expressible(less);
        assert(encodable_text(entries[entries.len() - 1].0));
    }
}

/// Where a field length can express every attribute, both writers of headers
/// write the same bytes.
pub proof fn law_one_way_to_write_a_header(attributes: AttributeMap, size: u64)
    requires
        encodable(attributes),
    ensures
        header_attempt(attributes, size) == (header_wire(attributes, size), true),
{
    lemma_sorted_exists(attributes);
    let entries = sorted_entries(attributes);
    lemma_encodable(attributes, entries);
    lemma_all_expressible(entries);
}

/// A read out of a stream that holds `bytes` and then ends in `failure` can
/// come to this.
pub open spec fn can_come(bytes: Seq<u8>, failure: Option<IoError>, event: ReadEvent) -> bool {
    match event {
        ReadEvent::Bytes(chunk) => 1 <= chunk@.len() && chunk@.is_prefix_of(bytes),
        ReadEvent::End => bytes.len() == 0 && failure is None,
        ReadEvent::Failed(e) => e.kind == ErrorKind::Interrupted || (bytes.len() == 0 && failure == Some(e)),
    }
}

/// Where no content length is given, a flow file that a stream starts with is
/// handed over, with its size, its attributes and its content. What the read
/// behind that content tells is whether it is the only one: that nothing
/// follows if nothing does, and that one flow file was expected if anything
/// does, be it another flow file or not.
pub proof fn law_a_single_flow_file_needs_no_content_length<R: Reader>(
    f: Model,
    rest: Seq<u8>,
    failure: Option<IoError>,
    first: StreamedFlowFile<R>,
    r: core::result::Result<StreamedFlowFile<R>, FlowFileParsingError>,
    event: ReadEvent,
)
    requires
        f.serializable(),
        parsed(f.wire() + rest, failure) matches Parsed::Header { attributes, size, count, rest: behind } && {
            &&& first.header.attributes@ == attributes
            &&& first.header.size == size
            &&& first.contents.limit == size
            &&& first.contents.inner.pending() == behind
            &&& single(Some(Ok(first)), planned(None, StreamEvent::Parsed(count), false).remaining, r)
        },
        can_come(first.contents.inner.pending().skip(f.size as int), failure, event),
    ensures
        r matches Ok(g) && g.header.attributes@ == f.attributes && g.header.size == f.size && g.contents.pending()
            == f.content,
        told(event) is Clean ==> rest.len() == 0,
        rest.len() == 0 && failure is None ==> told(event) is Clean || told(event) is Read,
        rest.len() > 0 ==> told(event) is Read || told(event) == TailStep::Failed(
            FlowFileParsingError::SingleFlowFileExpected,
        ),
{
    law_a_streamed_flow_file_reads_back(f, rest, failure);
    assert((f.content + rest).skip(f.size as int) =~= rest);
    assert(take_up_to(f.content + rest, f.size) =~= f.content);
}

/// Where a content length is given, the flow file that a stream starts with is
/// handed over if and only if it takes exactly that length. A shorter length
/// is a mismatch, and a longer one says that there is more.
pub proof fn law_a_single_flow_file_takes_the_content_length<R>(
    total: u64,
    length: u64,
    first: StreamedFlowFile<R>,
    r: core::result::Result<StreamedFlowFile<R>, FlowFileParsingError>,
)
    requires
        ({
            let plan = planned(Some(length), StreamEvent::Parsed(total), false);
            match plan.action {
                StreamAction::Yield => single(Some(Ok(first)), plan.remaining, r),
                StreamAction::YieldError(e) => single(Some(Err(e)), plan.remaining, r),
                _ => false,
            }
        }),
    ensures
        r is Ok <==> total == length,
        r matches Err(e) ==> e == if length < total {
            FlowFileParsingError::ContentLengthLengthMismatch { content_length: length, flow_file_required: total }
        } else {
            FlowFileParsingError::SingleFlowFileExpected
        },
{
}

/// A stream that says it will not yield more flow files does not, whatever
/// happens to it: every flow file takes some bytes.
pub proof fn law_an_exhausted_stream_yields_nothing(
    state: FlowFileIteratorState,
    remaining: Option<u64>,
    event: StreamEvent,
)
    requires
        remaining == Some(0u64) || state is Done,
        admits(state, event),
        event matches StreamEvent::Parsed(total) ==> total > 0,
    ensures
        !(planned(remaining, event, false).action is Yield),
        planned(remaining, event, false).remaining == remaining,
        !(pursued(state, remaining).action is Yield),
{
}

/// What a stream yields never takes more bytes than its content length: with
/// each flow file, what is left of it shrinks by what that flow file takes.
pub proof fn law_the_content_length_adds_up(n: u64, event: StreamEvent)
    ensures
        ({
            let after = planned(Some(n), event, false);
            &&& after.action is Yield ==> {
                &&& event matches StreamEvent::Parsed(total)
                &&& after.remaining matches Some(left)
                &&& left + total == n
            }
            &&& !(after.action is Yield) ==> after.remaining == Some(n)
        }),
{
}

/// A stream that is over stays over: nothing can happen to it, and it has
/// nothing but the end to give.
pub proof fn law_a_finished_stream_stays_finished(remaining: Option<u64>, event: StreamEvent)
    ensures
        !admits(FlowFileIteratorState::Done, event),
        pursued(FlowFileIteratorState::Done, remaining) == (StreamPlan {
            state: FlowFileIteratorState::Done,
            remaining,
            action: StreamAction::End,
        }),
{
}

} // verus!
