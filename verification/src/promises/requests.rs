//! Flow files out of requests, one after the other.

use vstd::prelude::*;
use vstd::utf8::*;

use crate::async_io::ReadEvent;
use crate::attributes::{insert_all, AttributeMap, Attributes, Entries};
use crate::decode::decode_header;
use crate::error::{Detail, ErrorKind, IoError};
use crate::flowfiles::error::FlowFileParsingError;
use crate::flowfiles::flowfile::{FlowFile, FlowFileBuilder, Given, Unset};
use crate::flowfiles::header::{attempt_header, write_flowfile_header, FlowFileHeader};
use crate::flowfiles::header::{expressible, header_attempt};
use crate::flowfiles::iterator::{
    after_content, check_content_type, content_length, field_length_encoded_size, single_flow_file,
    string_encoded_size, FlowFileIterator, FlowFileIteratorState, StreamAction, StreamEvent, StreamedFlowFile,
    StreamedFlowFiles, TailStep,
};
use crate::flowfiles::laws::law_one_header;
use crate::flowfiles::parser::{attributed, encoded_size, parsed, piece, plus, Parsed, Piece};
use crate::flowfiles::parser::{parse_flow_file_from_reader, FlowFileParseResult, HeaderParser, ParseStep, Stage};
use crate::flowfiles::writer::{FlowFileBodyWriter, FlowFileEncoder, OutputFlowFile, OutputFlowFileWithoutContent};
use crate::format::{encodable_entries, encodable_text, entries_wire, header_wire};
use crate::io::{Cursor, Reader, Take, Writer};
use crate::laws::lemma_front_map;
use crate::limits::no_limits;
use crate::text::decimal;
use super::failures::says_two;
use super::layout::{head, in_order, last_wins, lemma_head, lemma_last_wins, listing, size_of_text};
use super::numbers::{lemma_decimal, lemma_length_prefix, lemma_number, length_prefix, numeral, prefixed, ten_weighed};
use super::parsing::{counts, lemma_counts, lemma_size, lemma_unspelled, lists, says, spells};
use super::streams::has_room_for;

verus! {

proof fn lemma_said_piece(bytes: Seq<u8>, chars: Seq<char>, rest: Seq<u8>, failure: Option<IoError>)
    requires
        says(bytes, chars, rest),
    ensures
        piece(bytes, failure) == (Piece::Text { chars, len: size_of_text(chars), rest }),
        prefixed(chars).len() == size_of_text(chars) + encoded_size(size_of_text(chars)),
{
    let n = size_of_text(chars);
    lemma_counts(bytes, n, encode_utf8(chars) + rest);
    assert((encode_utf8(chars) + rest).take(n as int) =~= encode_utf8(chars));
    assert((encode_utf8(chars) + rest).skip(n as int) =~= rest);
    encode_utf8_valid_utf8(chars);
    encode_utf8_decode_utf8(chars);
    lemma_length_prefix(n);
}

#[verifier::spinoff_prover]
#[verifier::rlimit(50)]
proof fn lemma_attributes_counted(
    bytes: Seq<u8>,
    entries: Entries,
    rest: Seq<u8>,
    count: u64,
    before: AttributeMap,
    failure: Option<IoError>,
)
    requires
        lists(bytes, entries, rest),
    ensures
        attributed(bytes, entries.len(), count, before, failure) == attributed(
            rest,
            0,
            plus(count, listing(entries).len()),
            insert_all(before, entries),
            failure,
        ),
    decreases entries.len(),
{
    if entries.len() > 0 {
        let key = entries[0].0;
        let value = entries[0].1;
        let others = entries.drop_first();
        let (after_key, after_value) = choose|after_key: Seq<u8>, after_value: Seq<u8>| #[trigger]
            says(bytes, entries[0].0, after_key) && #[trigger] says(after_key, entries[0].1, after_value) && lists(
                after_value,
                entries.drop_first(),
                rest,
            );
        lemma_said_piece(bytes, key, after_key, failure);
        lemma_said_piece(after_key, value, after_value, failure);
        lemma_front_map(entries, before);
        let count1 = plus(count, prefixed(key).len());
        let count2 = plus(count1, prefixed(value).len());
        assert(plus(count2, listing(others).len()) == plus(count, listing(entries).len()));
        assert(attributed(bytes, entries.len(), count, before, failure) == attributed(
            after_value,
            others.len(),
            count2,
            before.insert(key, value),
            failure,
        ));
        lemma_attributes_counted(after_value, others, rest, count2, before.insert(key, value), failure);
    }
}

/// What a header parses as, with the number of bytes of its flow file.
#[verifier::spinoff_prover]
#[verifier::rlimit(50)]
proof fn lemma_parsed(bytes: Seq<u8>, entries: Entries, size: u64, rest: Seq<u8>, failure: Option<IoError>)
    requires
        spells(bytes, entries, size, rest),
    ensures
        parsed(bytes, failure) == (Parsed::Header {
            attributes: insert_all(Map::empty(), entries),
            size,
            count: plus(0, head(entries, size as nat).len() + size as nat),
            rest,
        }),
{
    let after_count = choose|after_count: Seq<u8>| #[trigger]
        counts(bytes.skip(7), entries.len(), after_count) && lists(
            after_count,
            entries,
            super::numbers::big_endian(size as nat, 8) + rest,
        );
    let tail = super::numbers::big_endian(size as nat, 8) + rest;
    lemma_counts(bytes.skip(7), entries.len(), after_count);
    lemma_size(size, rest);
    lemma_length_prefix(entries.len());
    let start = plus(7, encoded_size(entries.len()));
    lemma_attributes_counted(after_count, entries, tail, start, Map::empty(), failure);
    let count = plus(start, listing(entries).len());
    assert(head(entries, size as nat).len() == 7 + encoded_size(entries.len()) + listing(entries).len() + 8);
    assert(plus(count, 8 + size as nat) == plus(0, head(entries, size as nat).len() + size as nat));
}

/// A flow file is parsed out of a stream with what its header says, its content
/// is what follows, and the bytes that it takes are those of its header and its
/// content.
pub proof fn law_a_flow_file_is_parsed_out_of_a_stream<R: Reader>(
    reader: R,
    entries: Entries,
    size: u64,
    rest: Seq<u8>,
    r: FlowFileParseResult<R>,
)
    requires
        spells(reader.pending(), entries, size, rest),
        call_ensures(parse_flow_file_from_reader::<R>, (reader,), r),
    ensures
        r matches Ok((Some(f), n)) && f.header.size == size && last_wins(entries, f.header.attributes@) && f.contents.limit == size
            && f.contents.inner.pending() == rest && f.returns && (head(entries, size as nat).len() + size <= u64::MAX ==> n
            == head(entries, size as nat).len() + size) && (head(entries, size as nat).len() + size > u64::MAX ==> n == u64::MAX),
{
    lemma_parsed(reader.pending(), entries, size, rest, reader.failure());
    lemma_last_wins(entries);
}

/// Only a header gives a flow file. Seven other bytes are told, and the stream
/// goes on after them. Fewer bytes before a clean end are no flow file.
pub proof fn law_only_a_header_gives_a_flow_file<R: Reader>(reader: R, r: FlowFileParseResult<R>)
    requires
        call_ensures(parse_flow_file_from_reader::<R>, (reader,), r),
    ensures
        r matches Ok((Some(f), n)) ==> exists|entries: Entries| #[trigger]
            spells(reader.pending(), entries, f.header.size, f.contents.inner.pending()) && last_wins(entries, f.header.attributes@),
        reader.pending().len() >= 7 && reader.pending().take(7) != seq![78u8, 105u8, 70u8, 105u8, 70u8, 70u8, 51u8] ==> {
            &&& r matches Err((FlowFileParsingError::BadMagicBytes(found), left))
            &&& found@ == reader.pending().take(7)
            &&& left.pending() == reader.pending().skip(7)
        },
        reader.pending().len() < 7 && reader.failure() is None ==> (r matches Ok((None, n)) && n == 0),
{
    law_one_header(reader.pending(), reader.failure());
    if let Ok((Some(f), n)) = r {
        assert(parsed(reader.pending(), reader.failure()) is Header);
        assert(decode_header(reader.pending(), no_limits()) is Accepted);
        let entries = lemma_unspelled(reader.pending(), no_limits());
        lemma_last_wins(entries);
        assert(spells(reader.pending(), entries, f.header.size, f.contents.inner.pending()));
    }
}

#[verifier::spinoff_prover]
#[verifier::rlimit(50)]
proof fn lemma_header_spelled(bytes: Seq<u8>, attributes: AttributeMap, size: u64, count: u64)
    requires
        parsed(bytes, None) == (Parsed::Header { attributes, size, count, rest: Seq::empty() }),
    ensures
        exists|entries: Entries| #[trigger] spells(bytes, entries, size, Seq::empty()) && last_wins(entries, attributes),
{
    law_one_header(bytes, None);
    let entries = lemma_unspelled(bytes, no_limits());
    lemma_last_wins(entries);
    assert(spells(bytes, entries, size, Seq::empty()));
}

/// A parser that has been told of these bytes.
pub open spec fn told_of(parser: &HeaderParser, bytes: Seq<u8>) -> bool {
    forall|rest: Seq<u8>, failure: Option<IoError>| #[trigger] parser.outcome(rest, failure) == parsed(bytes + rest, failure)
}

/// A parser that is told of bytes has been told of those as well, or gives the
/// header that all of them are. It gives none that they are not.
#[verifier::spinoff_prover]
#[verifier::rlimit(60)]
pub proof fn law_a_parser_gives_what_it_was_told(parser: HeaderParser, bytes: Seq<u8>, chunk: Vec<u8>, step: ParseStep)
    requires
        told_of(&parser, bytes),
        call_ensures(HeaderParser::step, (parser, ReadEvent::Bytes(chunk)), step),
    ensures
        match step {
            ParseStep::Read(next) => told_of(&next, bytes + chunk@),
            ParseStep::Header(header, _) => exists|entries: Entries| #[trigger]
                spells(bytes + chunk@, entries, header.size, Seq::empty()) && last_wins(entries, header.attributes@),
            ParseStep::Failed(_) => !exists|more: Seq<u8>, entries: Entries, size: u64, rest: Seq<u8>| #[trigger]
                spells((bytes + chunk@) + more, entries, size, rest),
            ParseStep::Nothing => true,
        },
{
    let none = Seq::<u8>::empty();
    let all = bytes + chunk@;
    assert(crate::flowfiles::parser::agrees(step, parser, chunk@));
    match step {
        ParseStep::Read(next) => {
            assert forall|rest: Seq<u8>, failure: Option<IoError>| #[trigger] next.outcome(rest, failure) == parsed(
                all + rest,
                failure,
            ) by {
                assert(next.outcome(rest, failure) == parser.outcome(chunk@ + rest, failure));
                assert(bytes + (chunk@ + rest) =~= all + rest);
            }
        },
        ParseStep::Header(header, count) => {
            assert(parser.outcome(chunk@ + none, None) is Header);
            assert(bytes + (chunk@ + none) =~= all);
            lemma_header_spelled(all, header.attributes@, header.size, count);
        },
        ParseStep::Failed(e) => {
            if exists|more: Seq<u8>, entries: Entries, size: u64, rest: Seq<u8>| #[trigger]
                spells(all + more, entries, size, rest) {
                let (more, entries, size, rest) = choose|more: Seq<u8>, entries: Entries, size: u64, rest: Seq<u8>| #[trigger]
                    spells(all + more, entries, size, rest);
                lemma_parsed(all + more, entries, size, rest, None);
                assert(bytes + (chunk@ + more) =~= all + more);
                assert(crate::flowfiles::parser::tells(e, parser.outcome(chunk@ + more, None), more));
            }
        },
        ParseStep::Nothing => {},
    }
}

/// A parser starts with nothing, and an interruption changes nothing.
pub proof fn law_a_parser_starts_with_nothing(fresh: HeaderParser, n: usize, parser: HeaderParser, e: IoError, step: ParseStep)
    requires
        call_ensures(HeaderParser::new, (), fresh),
        call_ensures(HeaderParser::wanted, (&fresh,), n),
        e.kind == ErrorKind::Interrupted,
        call_ensures(HeaderParser::step, (parser, ReadEvent::Failed(e)), step),
    ensures
        told_of(&fresh, Seq::empty()),
        n >= 1,
        step matches ParseStep::Read(same) && same == parser,
{
    assert forall|rest: Seq<u8>, failure: Option<IoError>| #[trigger] fresh.outcome(rest, failure) == parsed(
        Seq::<u8>::empty() + rest,
        failure,
    ) by {
        assert(Seq::<u8>::empty() + rest =~= rest);
    }
}

#[verifier::spinoff_prover]
proof fn lemma_expressible(entries: Entries)
    ensures
        expressible(entries).1 <==> encodable_entries(entries),
        expressible(entries).0.is_prefix_of(entries_wire(entries)),
        expressible(entries).1 ==> expressible(entries).0 == entries_wire(entries),
    decreases entries.len(),
{
    if entries.len() > 0 {
        let less = entries.drop_last();
        lemma_expressible(less);
        let last = entries.len() - 1;
        let (before, whole) = expressible(less);
        assert(entries[last] == entries.last());
        if encodable_entries(entries) {
            assert forall|i: int| 0 <= i < less.len() implies encodable_text(#[trigger] less[i].0) && encodable_text(less[i].1) by {
                assert(less[i] == entries[i]);
            }
            assert(encodable_text(entries[last].0) && encodable_text(entries[last].1));
            assert(encodable_entries(less));
            assert(expressible(entries).1);
        }
        if expressible(entries).1 {
            assert(whole && encodable_text(entries.last().0) && encodable_text(entries.last().1));
            assert forall|i: int| 0 <= i < entries.len() implies encodable_text(#[trigger] entries[i].0) && encodable_text(
                entries[i].1,
            ) by {
                if i < last {
                    assert(less[i] == entries[i]);
                }
            }
        }
        let wire = entries_wire(entries);
        assert(before =~= wire.take(before.len() as int));
        let so_far = expressible(entries).0;
        assert(so_far =~= wire.take(so_far.len() as int));
    }
}

/// A header can be written whole exactly if the number of its attributes and
/// the bytes of each key and value stay below 2 to the power of 32. What is
/// written of one that cannot is a start of it.
#[verifier::spinoff_prover]
#[verifier::rlimit(40)]
pub proof fn law_a_header_is_attempted(attributes: &Attributes, size: u64, attempt: (Vec<u8>, bool)) -> (entries: Entries)
    requires
        attributes@.dom().finite(),
        call_ensures(attempt_header, (attributes, size), attempt),
    ensures
        in_order(entries, attributes@),
        attempt.1 <==> entries.len() < 0x1_0000_0000 && forall|i: int|
            0 <= i < entries.len() ==> size_of_text(#[trigger] entries[i].0) < 0x1_0000_0000 && size_of_text(entries[i].1)
                < 0x1_0000_0000,
        attempt.1 ==> attempt.0@ == head(entries, size as nat),
        attempt.0@.is_prefix_of(head(entries, size as nat)),
{
    let entries = lemma_head(attributes@, size);
    lemma_expressible(entries);
    let whole = head(entries, size as nat);
    assert(header_wire(attributes@, size) == whole);
    assert(attempt.0@ =~= whole.take(attempt.0@.len() as int));
    if encodable_entries(entries) {
        assert forall|i: int| 0 <= i < entries.len() implies size_of_text(#[trigger] entries[i].0) < 0x1_0000_0000 && size_of_text(
            entries[i].1,
        ) < 0x1_0000_0000 by {
            assert(encodable_text(entries[i].0));
        }
    }
    if forall|i: int|
        0 <= i < entries.len() ==> size_of_text(#[trigger] entries[i].0) < 0x1_0000_0000 && size_of_text(entries[i].1)
            < 0x1_0000_0000 {
        assert forall|i: int| 0 <= i < entries.len() implies encodable_text(#[trigger] entries[i].0) && encodable_text(entries[i].1) by {
            assert(size_of_text(entries[i].0) < 0x1_0000_0000);
        }
    }
    entries
}

/// The format can express these attributes.
pub open spec fn can_be_written(entries: Entries) -> bool {
    &&& entries.len() < 0x1_0000_0000
    &&& forall|i: int|
        0 <= i < entries.len() ==> size_of_text(#[trigger] entries[i].0) < 0x1_0000_0000 && size_of_text(entries[i].1) < 0x1_0000_0000
}

#[verifier::spinoff_prover]
#[verifier::rlimit(40)]
proof fn lemma_attempted(attributes: AttributeMap, size: u64) -> (entries: Entries)
    requires
        attributes.dom().finite(),
    ensures
        in_order(entries, attributes),
        can_be_written(entries) ==> header_attempt(attributes, size) == (head(entries, size as nat), true),
        header_attempt(attributes, size).1 ==> header_attempt(attributes, size).0 == head(entries, size as nat),
{
    let entries = lemma_head(attributes, size);
    lemma_expressible(entries);
    if can_be_written(entries) {
        assert(encodable_entries(entries)) by {
            assert forall|i: int| 0 <= i < entries.len() implies encodable_text(#[trigger] entries[i].0) && encodable_text(
                entries[i].1,
            ) by {
                assert(size_of_text(entries[i].0) < 0x1_0000_0000);
            }
        }
    }
    entries
}

/// Writing a header writes it whole if the writer takes it, and says so. A
/// writer that refuses some of it has its start, and its refusal is told.
pub proof fn law_a_header_is_written<W: Writer>(
    writer: &mut W,
    attributes: &Attributes,
    size: u64,
    r: core::result::Result<(), IoError>,
) -> (entries: Entries)
    requires
        attributes@.dom().finite(),
        call_ensures(write_flowfile_header::<W>, (writer, attributes, size), r),
    ensures
        in_order(entries, attributes@),
        can_be_written(entries) && has_room_for((*old(writer)).budget(), head(entries, size as nat).len()) ==> r is Ok,
        r is Ok ==> (*final(writer)).written() == (*old(writer)).written() + head(entries, size as nat),
{
    let entries = lemma_attempted(attributes@, size);
    let before = (*old(writer)).written();
    let after = (*final(writer)).written();
    assert(after =~= before + after.skip(before.len() as int));
    entries
}

/// The same of a header that holds its attributes and size.
pub proof fn law_a_header_writes_itself<W: Writer>(
    header: &FlowFileHeader,
    writer: &mut W,
    r: core::result::Result<(), IoError>,
) -> (entries: Entries)
    requires
        header.attributes@.dom().finite(),
        call_ensures(FlowFileHeader::serialize_header_into::<W>, (header, writer), r),
    ensures
        in_order(entries, header.attributes@),
        can_be_written(entries) && has_room_for((*old(writer)).budget(), head(entries, header.size as nat).len()) ==> r is Ok,
        r is Ok ==> (*final(writer)).written() == (*old(writer)).written() + head(entries, header.size as nat),
{
    let entries = lemma_attempted(header.attributes@, header.size);
    let before = (*old(writer)).written();
    let after = (*final(writer)).written();
    assert(after =~= before + after.skip(before.len() as int));
    entries
}

/// A flow file is serialized as its header and all of its content.
pub proof fn law_a_flow_file_serializes_itself<R: Reader, W: Writer>(
    f: &mut FlowFile<R>,
    writer: &mut W,
    r: core::result::Result<(), IoError>,
) -> (entries: Entries)
    requires
        old(f).header.attributes@.dom().finite(),
        old(f).content.pending().len() < u64::MAX,
        call_ensures(FlowFile::<R>::serialize_into::<W>, (f, writer), r),
    ensures
        in_order(entries, old(f).header.attributes@),
        final(f).header == old(f).header,
        r is Ok ==> (*final(writer)).written() == (*old(writer)).written() + head(entries, old(f).header.size as nat) + old(
            f,
        ).content.pending() && final(f).content.pending().len() == 0 && old(f).content.failure() is None,
        can_be_written(entries) && has_room_for(
            (*old(writer)).budget(),
            head(entries, old(f).header.size as nat).len() + old(f).content.pending().len(),
        ) && old(f).content.failure() is None ==> r is Ok,
{
    lemma_attempted(old(f).header.attributes@, old(f).header.size)
}

/// Writing a flow file writes its header first, and hands back where its
/// content goes.
pub proof fn law_a_header_comes_before_the_body<W: Writer, R>(
    writer: W,
    fresh: FlowFileEncoder<W>,
    encoder: &mut FlowFileEncoder<W>,
    f: &StreamedFlowFile<R>,
    r: core::result::Result<FlowFileBodyWriter<'_, W>, IoError>,
) -> (entries: Entries)
    requires
        f.header.attributes@.dom().finite(),
        call_ensures(FlowFileEncoder::<W>::new, (writer,), fresh),
        call_ensures(FlowFileEncoder::<W>::write_flow_file::<R>, (encoder, f), r),
    ensures
        fresh.writer == writer,
        in_order(entries, f.header.attributes@),
        r matches Ok(body) ==> (*body.writer).written() == old(encoder).writer.written() + head(entries, f.header.size as nat),
        can_be_written(entries) && has_room_for(old(encoder).writer.budget(), head(entries, f.header.size as nat).len()) ==> r is Ok,
{
    lemma_attempted(f.header.attributes@, f.header.size)
}

/// What a stream at this point may be asked to do, and where it then is. Nothing
/// is parsed once a known length is used up, and nothing is done once it is
/// over.
pub open spec fn polled(
    state: FlowFileIteratorState,
    remaining: Option<u64>,
    action: StreamAction,
    next: FlowFileIteratorState,
) -> bool {
    match state {
        FlowFileIteratorState::Owned => {
            let used_up = remaining matches Some(n) && n == 0;
            &&& used_up ==> action is End && next is Done
            &&& !used_up ==> action is Parse && next is Parsing
        },
        FlowFileIteratorState::Parsing => action is Parse && next is Parsing,
        FlowFileIteratorState::OnLoan => action is AwaitReturn && next is OnLoan,
        FlowFileIteratorState::NeedsToDrain => action is Drain && next is NeedsToDrain,
        FlowFileIteratorState::Done => action is End && next is Done,
    }
}

/// What a stream is asked to do next.
pub proof fn law_a_stream_is_polled(
    stream: &mut StreamedFlowFiles,
    action: StreamAction,
    other: &mut FlowFileIterator,
    other_action: StreamAction,
)
    requires
        call_ensures(StreamedFlowFiles::poll_next, (stream,), action),
        call_ensures(FlowFileIterator::poll_next, (other,), other_action),
    ensures
        polled(old(stream).state, old(stream).remaining_length, action, final(stream).state),
        final(stream).remaining_length == old(stream).remaining_length,
        polled(old(other).state, None, other_action, final(other).state),
{
}

/// A content that came back whole is followed by the next header, and what is
/// left of one is read first. What a flow file takes is taken off a known length,
/// and one that takes more than is left of that is refused with both numbers.
/// Whatever fails ends the stream.
pub proof fn law_a_stream_goes_on(stream: &mut StreamedFlowFiles, event: StreamEvent, action: StreamAction)
    requires
        call_ensures(StreamedFlowFiles::step, (stream, event), action),
    ensures
        ({
            let before = old(stream).remaining_length;
            let state = final(stream).state;
            match event {
                StreamEvent::Returned(left) => {
                    &&& left > 0 ==> action is Drain && state is NeedsToDrain
                    &&& left == 0 ==> polled(FlowFileIteratorState::Owned, before, action, state)
                },
                StreamEvent::Drained => polled(FlowFileIteratorState::Owned, before, action, state),
                StreamEvent::Lost => state is Done && action == StreamAction::YieldError(FlowFileParsingError::BrokenChannel),
                StreamEvent::DrainFailed(e) => state is Done && action == StreamAction::YieldError(FlowFileParsingError::Io(e)),
                StreamEvent::Ended => state is Done && action is End,
                StreamEvent::ParseFailed(e) => state is Done && action == StreamAction::YieldError(e),
                StreamEvent::Parsed(total) => match before {
                    None => action is Yield && state is OnLoan,
                    Some(n) => {
                        &&& total <= n ==> action is Yield && state is OnLoan && final(stream).remaining_length == Some(
                            (n - total) as u64,
                        )
                        &&& total > n ==> state is Done && action == StreamAction::YieldError(
                            FlowFileParsingError::ContentLengthLengthMismatch { content_length: n, flow_file_required: total },
                        )
                    },
                },
            }
        }),
        !(event is Parsed) ==> final(stream).remaining_length == old(stream).remaining_length,
        !(action is Yield) ==> final(stream).remaining_length == old(stream).remaining_length,
{
}

/// The same without a known length, where what is no header is told and the
/// stream goes on behind it.
pub proof fn law_an_iterator_goes_on(stream: &mut FlowFileIterator, event: StreamEvent, action: StreamAction)
    requires
        call_ensures(FlowFileIterator::step, (stream, event), action),
    ensures
        ({
            let state = final(stream).state;
            match event {
                StreamEvent::Returned(left) => {
                    &&& left > 0 ==> action is Drain && state is NeedsToDrain
                    &&& left == 0 ==> action is Parse && state is Parsing
                },
                StreamEvent::Drained => action is Parse && state is Parsing,
                StreamEvent::Lost => state is Done && action == StreamAction::YieldError(FlowFileParsingError::BrokenChannel),
                StreamEvent::DrainFailed(e) => state is Done && action == StreamAction::YieldError(FlowFileParsingError::Io(e)),
                StreamEvent::Ended => state is Done && action is End,
                StreamEvent::ParseFailed(e) => state is Owned && action == StreamAction::YieldError(e),
                StreamEvent::Parsed(_) => action is Yield && state is OnLoan,
            }
        }),
{
}

/// A stream starts with its reader and, if there is one, with its whole length.
/// It is empty once that is used up or it is over.
pub proof fn law_a_stream_starts_with_its_length(
    plain: StreamedFlowFiles,
    n: u64,
    sized: StreamedFlowFiles,
    iterator: FlowFileIterator,
    stream: &StreamedFlowFiles,
    empty: bool,
)
    requires
        call_ensures(StreamedFlowFiles::new, (), plain),
        call_ensures(StreamedFlowFiles::new_with_content_length, (n,), sized),
        call_ensures(FlowFileIterator::new, (), iterator),
        call_ensures(StreamedFlowFiles::is_empty, (stream,), empty),
    ensures
        plain.state is Owned && plain.remaining_length is None,
        sized.state is Owned && sized.remaining_length == Some(n),
        iterator.state is Owned,
        empty <==> (stream.state is Done || (stream.remaining_length matches Some(left) && left == 0)),
{
}

/// The one flow file of a request is the first, if nothing of a known length is
/// left after it. Its reader does not go back.
pub proof fn law_a_single_flow_file_is_the_first<R>(
    first: Option<core::result::Result<StreamedFlowFile<R>, FlowFileParsingError>>,
    stream: &StreamedFlowFiles,
    r: core::result::Result<StreamedFlowFile<R>, FlowFileParsingError>,
)
    requires
        call_ensures(single_flow_file::<R>, (first, stream), r),
    ensures
        match first {
            None => r matches Err(FlowFileParsingError::FlowFileExpected),
            Some(Err(e)) => r matches Err(same) && same == e,
            Some(Ok(f)) => {
                let more = stream.remaining_length matches Some(n) && n > 0;
                &&& more ==> (r matches Err(FlowFileParsingError::SingleFlowFileExpected))
                &&& !more ==> (r matches Ok(g) && g.header == f.header && g.contents == f.contents && !g.returns)
            },
        },
{
}

/// Behind a single flow file an end is as it should be, any byte is one too
/// many, an interruption is tried again, and any other failure is told.
pub proof fn law_nothing_follows_a_single_flow_file(event: ReadEvent, step: TailStep)
    requires
        call_ensures(after_content, (event,), step),
    ensures
        match event {
            ReadEvent::End => step is Clean,
            ReadEvent::Bytes(_) => step == TailStep::Failed(FlowFileParsingError::SingleFlowFileExpected),
            ReadEvent::Failed(e) => {
                &&& e.kind == ErrorKind::Interrupted ==> step is Read
                &&& e.kind != ErrorKind::Interrupted ==> step == TailStep::Failed(FlowFileParsingError::Io(e))
            },
        },
{
}

/// Only the media type of flow files is accepted, and anything else is answered
/// 415.
pub proof fn law_only_the_media_type_is_accepted(value: Option<&str>, r: core::result::Result<(), (u16, &'static str)>)
    requires
        call_ensures(check_content_type, (value,), r),
    ensures
        r is Ok <==> (value matches Some(v) && v@ == "application/flowfile-v3"@),
        r matches Err((code, _)) ==> code == 415,
{
}

/// A content length is a number in decimal.
pub proof fn law_a_content_length_is_a_number(value: Option<&str>, n: Option<u64>)
    requires
        call_ensures(content_length, (value,), n),
    ensures
        value is None ==> n is None,
        value matches Some(text) ==> {
            &&& numeral(text@) && ten_weighed(text@, 0) <= u64::MAX ==> n is Some && n->0 == ten_weighed(text@, 0)
            &&& n matches Some(number) ==> {
                ||| numeral(text@) && number == ten_weighed(text@, 0)
                ||| text@.len() > 0 && text@[0] == '+' && numeral(text@.skip(1)) && number == ten_weighed(text@.skip(1), 0)
            }
        },
{
    if let Some(text) = value {
        lemma_number(text@);
    }
}

/// What a field length and a text take is what is written of them.
pub proof fn law_sizes_are_those_of_what_is_written(n: u32, size: u64, s: &str, text_size: u64)
    requires
        call_ensures(field_length_encoded_size, (n,), size),
        call_ensures(string_encoded_size, (s,), text_size),
    ensures
        size == length_prefix(n as nat).len(),
        text_size == prefixed(s@).len(),
{
    lemma_length_prefix(n as nat);
    lemma_length_prefix(size_of_text(s@));
}

/// More than one flow file is answered 422, a failure of the stream 500, and
/// anything else that is wrong with a request 400.
pub proof fn law_what_is_wrong_decides_the_answer(err: &FlowFileParsingError, code: u16, io: IoError, made: FlowFileParsingError)
    requires
        call_ensures(FlowFileParsingError::status, (err,), code),
        call_ensures(<FlowFileParsingError as From<IoError>>::from, (io,), made),
    ensures
        *err is SingleFlowFileExpected ==> code == 422,
        *err is Io ==> code == 500,
        !(*err is SingleFlowFileExpected) && !(*err is Io) ==> code == 400,
        made == FlowFileParsingError::Io(io),
{
}

/// A length that a flow file does not fit is told with both numbers, and an
/// error that carries another says what that says.
pub proof fn law_what_is_wrong_is_told(err: &FlowFileParsingError, text: String, io: &IoError, inner: String)
    requires
        call_ensures(FlowFileParsingError::message, (err,), text),
        call_ensures(IoError::message, (io,), inner),
    ensures
        match *err {
            FlowFileParsingError::ContentLengthLengthMismatch { content_length, flow_file_required } => says_two(
                text@,
                "Content length of "@,
                content_length as nat,
                " less than flow file header indicated "@,
                flow_file_required as nat,
                Seq::empty(),
            ),
            FlowFileParsingError::Malformed { context, io_error } => io_error == *io ==> text@ == "Malformed flowfile: "@ + context@
                + ": "@ + inner@,
            FlowFileParsingError::Io(e) => e == *io ==> text@ == "IO error while processing flowfile: "@ + inner@,
            FlowFileParsingError::FlowFileExpected => text@ == "A flow file was expected in the request payload."@,
            FlowFileParsingError::SingleFlowFileExpected => text@
                == "A single flow file was expected in the request payload, but excess data was received."@,
            FlowFileParsingError::BrokenChannel => text@ == "Broken internal flow file parsing channel: channel closed"@,
            FlowFileParsingError::BadMagicBytes(_) => "Incorrect flow file magic bytes, expected 'NiFiFF3' but got "@.is_prefix_of(
                text@,
            ),
        },
{
    match *err {
        FlowFileParsingError::ContentLengthLengthMismatch { content_length, flow_file_required } => {
            lemma_decimal(content_length as nat);
            lemma_decimal(flow_file_required as nat);
            assert(text@ =~= "Content length of "@ + decimal(content_length as nat) + " less than flow file header indicated "@
                + decimal(flow_file_required as nat) + Seq::<char>::empty());
        },
        FlowFileParsingError::BadMagicBytes(found) => {
            let words = "Incorrect flow file magic bytes, expected 'NiFiFF3' but got "@;
            assert(words =~= text@.take(words.len() as int));
        },
        _ => {},
    }
}

/// A flow file that is built from bytes declares as many, and holds them.
pub proof fn law_built_from_bytes_it_declares_them(
    content: Vec<u8>,
    start: FlowFileBuilder<Unset, Unset, Unset>,
    attributes: Attributes,
    attributed_builder: FlowFileBuilder<Unset, Given<Attributes>, Unset>,
    builder: FlowFileBuilder<Given<u64>, Given<Attributes>, Given<Cursor>>,
    f: FlowFile<Cursor>,
)
    requires
        call_ensures(FlowFileBuilder::<Unset, Unset, Unset>::attributes, (start, attributes), attributed_builder),
        call_ensures(
            FlowFileBuilder::<Unset, Given<Attributes>, Unset>::content_from_bytes,
            (attributed_builder, content),
            builder,
        ),
        call_ensures(FlowFileBuilder::<Given<u64>, Given<Attributes>, Given<Cursor>>::build, (builder,), f),
    ensures
        f.header.size == content@.len(),
        f.header.attributes == attributes,
        f.content.pending() == content@,
        f.content.failure() is None,
{
}

/// A flow file that is built from its parts has them.
pub proof fn law_built_from_parts_it_has_them(
    size: u64,
    attributes: Attributes,
    content: Vec<u8>,
    start: FlowFileBuilder<Unset, Unset, Unset>,
    one: FlowFileBuilder<Given<u64>, Unset, Unset>,
    two: FlowFileBuilder<Given<u64>, Given<Attributes>, Unset>,
    three: FlowFileBuilder<Given<u64>, Given<Attributes>, Given<Vec<u8>>>,
    f: FlowFile<Vec<u8>>,
    direct: FlowFile<Vec<u8>>,
    parts: (FlowFileHeader, Vec<u8>),
)
    requires
        call_ensures(FlowFileBuilder::<Unset, Unset, Unset>::size, (start, size), one),
        call_ensures(FlowFileBuilder::<Given<u64>, Unset, Unset>::attributes, (one, attributes), two),
        call_ensures(FlowFileBuilder::<Given<u64>, Given<Attributes>, Unset>::content::<Vec<u8>>, (two, content), three),
        call_ensures(FlowFileBuilder::<Given<u64>, Given<Attributes>, Given<Vec<u8>>>::build, (three,), f),
        call_ensures(FlowFile::<Vec<u8>>::new, (size, attributes, content), direct),
        call_ensures(FlowFile::<Vec<u8>>::into_parts, (f,), parts),
    ensures
        f.header.size == size && f.header.attributes == attributes && f.content == content,
        direct == f,
        parts.0.size == size && parts.0.attributes == attributes && parts.1 == content,
{
}

/// An attribute that is set on a flow file to be sent is found there.
pub proof fn law_a_set_attribute_is_sent(
    f: &mut OutputFlowFileWithoutContent,
    key: String,
    value: String,
    replaced: Option<String>,
    asked: &str,
    before: Option<&str>,
    after: Option<&str>,
)
    requires
        call_ensures(OutputFlowFileWithoutContent::get_attribute, (&*old(f), asked), before),
        call_ensures(OutputFlowFileWithoutContent::set_attribute, (f, key, value), replaced),
        call_ensures(OutputFlowFileWithoutContent::get_attribute, (&*final(f), asked), after),
    ensures
        asked@ == key@ ==> (after matches Some(found) && found@ == value@),
        asked@ != key@ ==> super::holdings::same_text(after, before),
        asked@ == key@ ==> match replaced {
            Some(old_value) => before matches Some(found) && found@ == old_value@,
            None => before is None,
        },
{
}

/// A flow file to be sent has the size of its content.
pub proof fn law_what_is_sent_has_the_size_of_its_content(
    f: OutputFlowFileWithoutContent,
    content: Cursor,
    r: core::result::Result<OutputFlowFile<Cursor>, crate::flowfiles::writer::Never>,
)
    requires
        content.whole().len() <= u64::MAX,
        call_ensures(OutputFlowFileWithoutContent::with_content::<Cursor>, (f, content), r),
    ensures
        r matches Ok(g) && g.size == content.whole().len() && g.attributes == f.0 && g.content == content,
{
}

/// A streamed flow file tells its size and attributes, and gives its reader back
/// unless it was told not to.
pub proof fn law_a_streamed_flow_file_gives_its_reader_back(
    f: &mut StreamedFlowFile<Cursor>,
    given: StreamedFlowFile<Cursor>,
    back: Option<Take<Cursor>>,
    len: u64,
    empty: bool,
)
    requires
        call_ensures(StreamedFlowFile::<Cursor>::disable_automatic_return_of_internal_reader, (f,), ()),
        call_ensures(StreamedFlowFile::<Cursor>::into_returned, (given,), back),
        call_ensures(StreamedFlowFile::<Cursor>::len, (&given,), len),
        call_ensures(StreamedFlowFile::<Cursor>::is_empty, (&given,), empty),
    ensures
        !final(f).returns,
        final(f).header == old(f).header,
        final(f).contents == old(f).contents,
        given.returns ==> back == Some(given.contents),
        !given.returns ==> back is None,
        len == given.header.size,
        empty <==> len == 0,
{
}

/// What a header was broken off in is told in these words.
pub proof fn law_each_part_of_a_header_has_its_words(stage: Stage, words: &'static str)
    requires
        call_ensures(Stage::context, (stage,), words),
    ensures
        stage is Magic ==> words@ == "Could not read 7 bytes to check for flow file magic bytes"@,
        stage is Count ==> words@ == "Reading number of attributes in flowfile"@,
        stage is Key ==> words@ == "Reading key from attribute"@,
        stage is Value ==> words@ == "Reading value from attribute"@,
        stage is Size ==> words@ == "Reading content length as u64"@,
{
}

/// A wrong start is told with its seven bytes as a list.
pub proof fn law_wrong_magic_bytes_are_told(err: &FlowFileParsingError, text: String, found: [u8; 7], bytes: &[u8], list: String)
    requires
        *err == FlowFileParsingError::BadMagicBytes(found),
        bytes@ == found@,
        call_ensures(FlowFileParsingError::message, (err,), text),
        call_ensures(crate::text::byte_list_text, (bytes,), list),
    ensures
        text@ == "Incorrect flow file magic bytes, expected 'NiFiFF3' but got "@ + list@,
{
}

/// A header holds what it was made of, and is empty where no content is
/// declared.
pub proof fn law_a_header_holds_what_it_was_made_of(
    size: u64,
    attributes: Attributes,
    header: FlowFileHeader,
    told: u64,
    empty: bool,
    all: &Attributes,
    made: FlowFileHeader,
    none: FlowFileHeader,
)
    requires
        call_ensures(FlowFileHeader::new, (size, attributes), header),
        call_ensures(FlowFileHeader::size, (&header,), told),
        call_ensures(FlowFileHeader::is_empty, (&header,), empty),
        call_ensures(FlowFileHeader::attributes, (&header,), all),
        call_ensures(<FlowFileHeader as From<(u64, Attributes)>>::from, ((size, attributes),), made),
        call_ensures(FlowFileHeader::default, (), none),
    ensures
        told == size,
        empty <==> size == 0,
        *all == attributes,
        made == header,
        none.size == 0,
        forall|key: Seq<char>| !#[trigger] none.attributes@.dom().contains(key),
{
}

/// A content that is buffered from a reader is all of it.
pub proof fn law_built_from_a_reader_it_declares_what_was_read<R: Reader>(
    start: FlowFileBuilder<Unset, Unset, Unset>,
    reader: R,
    r: core::result::Result<FlowFileBuilder<Given<u64>, Unset, Given<Cursor>>, IoError>,
)
    requires
        call_ensures(
            FlowFileBuilder::<Unset, Unset, Unset>::content_from_reader_buffered_in_memory::<R>,
            (start, reader),
            r,
        ),
    ensures
        match reader.failure() {
            Some(e) => r matches Err(told) && told == e,
            None => r matches Ok(builder) && builder.size.0 == reader.pending().len() && builder.content.0.pending()
                == reader.pending() && builder.content.0.failure() is None,
        },
{
}

/// A flow file to be sent tells its size, and an attribute that is set on it is
/// found there.
pub proof fn law_a_set_attribute_is_sent_with_the_content(
    f: &mut OutputFlowFile<Cursor>,
    key: String,
    value: String,
    replaced: Option<String>,
    asked: &str,
    before: Option<&str>,
    after: Option<&str>,
    size: u64,
)
    requires
        call_ensures(OutputFlowFile::<Cursor>::get_attribute, (&*old(f), asked), before),
        call_ensures(OutputFlowFile::<Cursor>::set_attribute, (f, key, value), replaced),
        call_ensures(OutputFlowFile::<Cursor>::get_attribute, (&*final(f), asked), after),
        call_ensures(OutputFlowFile::<Cursor>::size, (&*final(f),), size),
    ensures
        asked@ == key@ ==> (after matches Some(found) && found@ == value@),
        asked@ != key@ ==> super::holdings::same_text(after, before),
        asked@ == key@ ==> match replaced {
            Some(old_value) => before matches Some(found) && found@ == old_value@,
            None => before is None,
        },
        size == old(f).size,
        final(f).content == old(f).content,
{
}

/// A flow file to be sent starts with no attributes, or with those given, and so
/// does one without content.
pub proof fn law_what_is_sent_starts_with_what_was_given(
    attributes: Attributes,
    none: OutputFlowFileWithoutContent,
    some: OutputFlowFileWithoutContent,
    empty: FlowFile<()>,
    empty_with: FlowFile<()>,
)
    requires
        call_ensures(OutputFlowFile::<()>::empty, (), none),
        call_ensures(OutputFlowFile::<()>::with_attributes, (attributes,), some),
        call_ensures(FlowFile::<()>::empty, (), empty),
        call_ensures(FlowFile::<()>::empty_with_attributes, (attributes,), empty_with),
    ensures
        forall|key: Seq<char>| !#[trigger] none.0@.dom().contains(key),
        some.0 == attributes,
        empty.header.size == 0,
        forall|key: Seq<char>| !#[trigger] empty.header.attributes@.dom().contains(key),
        empty_with.header.size == 0,
        empty_with.header.attributes == attributes,
{
}

/// Neither the end of the stream nor a failure of it is read past.
pub proof fn law_nothing_is_read_past_the_end(
    parser: HeaderParser,
    ended: ParseStep,
    other: HeaderParser,
    io: IoError,
    failed: ParseStep,
)
    requires
        io.kind != ErrorKind::Interrupted,
        call_ensures(HeaderParser::step, (parser, ReadEvent::End), ended),
        call_ensures(HeaderParser::step, (other, ReadEvent::Failed(io)), failed),
    ensures
        ended is Nothing || ended is Failed,
        failed is Nothing || failed is Failed,
{
}

/// A stream that stops inside of the content size of a header says so: that it
/// ended, or the failure that it stopped in.
#[verifier::spinoff_prover]
#[verifier::rlimit(50)]
pub proof fn law_a_broken_off_size_is_told<R: Reader>(
    reader: R,
    entries: Entries,
    after_count: Seq<u8>,
    at: Seq<u8>,
    r: FlowFileParseResult<R>,
)
    requires
        reader.pending().len() >= 7,
        reader.pending().take(7) == seq![78u8, 105u8, 70u8, 105u8, 70u8, 70u8, 51u8],
        counts(reader.pending().skip(7), entries.len(), after_count),
        lists(after_count, entries, at),
        at.len() < 8,
        call_ensures(parse_flow_file_from_reader::<R>, (reader,), r),
    ensures
        r matches Err((FlowFileParsingError::Malformed { context, io_error }, left)) && context@
            == "Reading content length as u64"@ && match reader.failure() {
            Some(e) => io_error == e,
            None => io_error.kind == ErrorKind::UnexpectedEof && (io_error.detail matches Detail::Message(words) && words@
                == "unexpected end of file"@),
        },
{
    let bytes = reader.pending();
    lemma_counts(bytes.skip(7), entries.len(), after_count);
    let start = plus(7, encoded_size(entries.len()));
    lemma_attributes_counted(after_count, entries, at, start, Map::empty(), reader.failure());
    let what = parsed(bytes, reader.failure());
    assert(what == attributed(after_count, entries.len(), start, Map::empty(), reader.failure()));
    assert(what is Malformed);
}

} // verus!
