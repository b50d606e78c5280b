//! Headers and contents that arrive piece by piece.

use vstd::prelude::*;

use crate::async_io::{
    with_content, ContentStep, FlowFilesAsync, FlowFilesWriterAsync, HeaderStep, PendingContent, PendingHeader,
    ReadEvent,
};
use crate::attributes::{Attributes, Entries};
use crate::decode::{decode_header, HeaderDecoder, Outcome};
use crate::error::{Detail, Error, ErrorKind, IoError, Result};
use crate::flow_file::FlowFile;
use crate::limits::Limits;
use super::layout::{last_wins, lemma_last_wins};
use super::parsing::{lemma_spelled, lemma_unspelled, spells};
use super::streams::{content_failure, failed_with, header_allowed, unlimited};

verus! {

/// A content is read until as many bytes came as it declares. Each is handed on
/// and counted, and an end is judged by the count.
pub proof fn law_an_arriving_content_is_counted(content: PendingContent, event: ReadEvent, step: ContentStep)
    requires
        call_ensures(PendingContent::step, (content, event), step),
    ensures
        match event {
            ReadEvent::Bytes(bytes) => {
                &&& step matches ContentStep::Give(given, next)
                &&& given == bytes
                &&& next.declared() == content.declared()
                &&& next.read() == content.read() + bytes@.len()
            },
            ReadEvent::End => {
                &&& step matches ContentStep::End(r)
                &&& content.read() == content.declared() ==> r == Ok::<u64, IoError>(content.declared())
                &&& content.read() != content.declared() ==> {
                    &&& r matches Err(e)
                    &&& e.kind == ErrorKind::UnexpectedEof
                    &&& e.detail matches Detail::Carried(inner)
                    &&& *inner matches Error::SizeMismatch { expected, actual }
                    &&& expected == content.declared()
                    &&& actual == content.read()
                }
            },
            ReadEvent::Failed(e) => if e.kind == ErrorKind::Interrupted {
                step matches ContentStep::Read(same) && same == content
            } else {
                step matches ContentStep::Failed(told) && told == e
            },
        },
{
}

/// A content starts with nothing read, and no more is asked for than is left,
/// nor more than 65536 bytes at once.
pub proof fn law_no_more_is_asked_for_than_is_left(size: u64, fresh: PendingContent, content: &PendingContent, n: usize, m: usize, on: PendingContent)
    requires
        call_ensures(PendingContent::new, (size,), fresh),
        content.read() <= content.declared(),
        call_ensures(PendingContent::limit, (content,), n),
        m <= content.declared() - content.read(),
        call_ensures(PendingContent::advance, (*content, m), on),
    ensures
        fresh.declared() == size && fresh.read() == 0,
        content.read() + n <= content.declared(),
        n <= 65536,
        n < 65536 ==> content.read() + n == content.declared(),
        on.declared() == content.declared() && on.read() == content.read() + m,
{
}

/// A content is complete exactly if as many bytes came as it declares.
pub proof fn law_a_content_is_complete_at_its_size(content: PendingContent, r: core::result::Result<u64, IoError>)
    requires
        call_ensures(PendingContent::end, (content,), r),
    ensures
        content.read() == content.declared() ==> r == Ok::<u64, IoError>(content.declared()),
        content.read() != content.declared() ==> {
            &&& r matches Err(e)
            &&& e.kind == ErrorKind::UnexpectedEof
            &&& e.detail matches Detail::Carried(inner)
            &&& *inner matches Error::SizeMismatch { expected, actual }
            &&& expected == content.declared()
            &&& actual == content.read()
        },
{
}

/// A flow file is made of a header and a content of the declared size, and of
/// no other.
pub proof fn law_a_flow_file_is_made_of_its_whole_content(
    attributes: Attributes,
    size: u64,
    content: Vec<u8>,
    r: core::result::Result<FlowFile<Vec<u8>>, IoError>,
)
    requires
        content@.len() <= size,
        call_ensures(with_content, (attributes, size, content), r),
    ensures
        content@.len() == size ==> (r matches Ok(f) && f.size == size && f.attributes@ == attributes@ && f.content@ == content@),
        content@.len() < size ==> (r matches Err(e) && content_failure(e, size, content@, None)),
{
    assert(content@.len() == size ==> content@.take(size as int) =~= content@);
}

/// An interruption asks for the same read again, and any other failure of the
/// stream is told. An end where a flow file may begin is nothing, and anywhere
/// else it came too early.
pub proof fn law_an_arriving_header_ends_early_or_not_at_all(header: PendingHeader, event: ReadEvent, step: HeaderStep)
    requires
        call_ensures(PendingHeader::step, (header, event), step),
    ensures
        event matches ReadEvent::Failed(io) ==> if io.kind == ErrorKind::Interrupted {
            step matches HeaderStep::Read(same) && same == header
        } else {
            step matches HeaderStep::Failed(e) && failed_with(e, io)
        },
        event is End && header.may_end() ==> step is Nothing,
        event is End && !header.may_end() ==> {
            &&& step matches HeaderStep::Failed(e)
            &&& e matches Error::Io(io)
            &&& io.kind == ErrorKind::UnexpectedEof
            &&& io.detail matches Detail::Message(words)
            &&& words@ == "early eof"@ || words@ == "attribute truncated"@
        },
        event is Bytes ==> !(step is Nothing),
{
}

/// Going through a stream goes on after a flow file, and never after anything
/// else.
pub proof fn law_a_stream_is_over_after_anything_else<R>(
    reader: R,
    limits: Limits,
    plain: FlowFilesAsync<R>,
    limited: FlowFilesAsync<R>,
    files: &mut FlowFilesAsync<R>,
    result: Option<Result<FlowFile<Vec<u8>>>>,
    r: Option<Result<FlowFile<Vec<u8>>>>,
    next: Option<PendingHeader>,
)
    requires
        call_ensures(FlowFilesAsync::<R>::new, (reader,), plain),
        call_ensures(FlowFilesAsync::<R>::with_limits, (reader, limits), limited),
        call_ensures(FlowFilesAsync::<R>::settle, (files, result), r),
        call_ensures(FlowFilesAsync::<R>::begin, (&*final(files),), next),
    ensures
        plain.source() == reader && plain.caps() == unlimited() && !plain.fused(),
        limited.source() == reader && limited.caps() == limits && !limited.fused(),
        r == result,
        final(files).source() == old(files).source(),
        final(files).caps() == old(files).caps(),
        next is Some <==> !old(files).fused() && (result matches Some(Ok(_))),
        next matches Some(header) ==> header.may_end(),
{
}

/// A writer counts the flow files that it wrote whole, and a failure poisons it
/// for good.
pub proof fn law_an_async_writer_counts_what_it_wrote<W>(
    writer: W,
    fresh: FlowFilesWriterAsync<W>,
    w: &mut FlowFilesWriterAsync<W>,
    result: core::result::Result<u64, IoError>,
    r: core::result::Result<u64, IoError>,
    count: u64,
    poisoned: bool,
    guarded: core::result::Result<(), IoError>,
)
    requires
        call_ensures(FlowFilesWriterAsync::<W>::new, (writer,), fresh),
        call_ensures(FlowFilesWriterAsync::<W>::settle, (w, result), r),
        call_ensures(FlowFilesWriterAsync::<W>::count, (&*final(w),), count),
        call_ensures(FlowFilesWriterAsync::<W>::is_poisoned, (&*final(w),), poisoned),
        call_ensures(FlowFilesWriterAsync::<W>::guard, (&*final(w),), guarded),
    ensures
        fresh.sink() == writer && fresh.complete() == 0 && !fresh.broken(),
        r == result,
        final(w).sink() == old(w).sink(),
        result is Ok ==> count == old(w).complete() + 1,
        result is Err ==> count == old(w).complete(),
        poisoned <==> old(w).broken() || result is Err,
        guarded is Err <==> poisoned,
        guarded matches Err(e) ==> {
            &&& e.kind == ErrorKind::BrokenPipe
            &&& e.detail matches Detail::Carried(inner)
            &&& *inner is WriterPoisoned
        },
{
}

/// The same of a failure that no write has settled.
pub proof fn law_a_failure_poisons_an_async_writer<W>(
    w: &mut FlowFilesWriterAsync<W>,
    result: core::result::Result<(), IoError>,
    r: core::result::Result<(), IoError>,
)
    requires
        call_ensures(FlowFilesWriterAsync::<W>::poison_on_err::<()>, (w, result), r),
    ensures
        r == result,
        final(w).broken() <==> old(w).broken() || result is Err,
        final(w).complete() == old(w).complete(),
        final(w).sink() == old(w).sink(),
{
}

/// A new decoder has been handed nothing, and asks for the first seven bytes.
pub proof fn law_a_decoder_starts_at_the_front(limits: Limits, decoder: HeaderDecoder, n: usize, done: bool)
    requires
        call_ensures(HeaderDecoder::new, (limits,), decoder),
        call_ensures(HeaderDecoder::wanted, (&decoder,), n),
        call_ensures(HeaderDecoder::is_done, (&decoder,), done),
    ensures
        n == 7,
        !done,
        fed(&decoder, Seq::empty(), limits),
{
    assert forall|rest: Seq<u8>| #[trigger] decoder.outcome(rest) == decode_header(Seq::<u8>::empty() + rest, limits) by {
        assert(Seq::<u8>::empty() + rest =~= rest);
    }
}

/// The decoder has been handed these bytes so far.
pub open spec fn fed(decoder: &HeaderDecoder, bytes: Seq<u8>, limits: Limits) -> bool {
    forall|rest: Seq<u8>| #[trigger] decoder.outcome(rest) == decode_header(bytes + rest, limits)
}

/// A header that may be accepted starts with these bytes.
pub open spec fn may_become_a_header(bytes: Seq<u8>, limits: Limits) -> bool {
    exists|more: Seq<u8>, entries: Entries, size: u64, rest: Seq<u8>| #[trigger]
        spells(bytes + more, entries, size, rest) && header_allowed(entries, size, limits)
}

/// A decoder that is handed a chunk has been handed that as well, and refuses it
/// only if no acceptable header starts so.
pub proof fn law_a_decoder_goes_on_while_there_may_be_a_header(
    decoder: HeaderDecoder,
    bytes: Seq<u8>,
    limits: Limits,
    chunk: &[u8],
    r: Result<HeaderDecoder>,
)
    requires
        fed(&decoder, bytes, limits),
        call_ensures(HeaderDecoder::feed, (decoder, chunk), r),
    ensures
        r matches Ok(next) ==> fed(&next, bytes + chunk@, limits),
        r is Err ==> !may_become_a_header(bytes + chunk@, limits),
{
    assert forall|rest: Seq<u8>| true implies decoder.outcome(chunk@ + rest) == decode_header((bytes + chunk@) + rest, limits) by {
        assert(bytes + (chunk@ + rest) =~= (bytes + chunk@) + rest);
    }
    if let Ok(next) = r {
        assert forall|rest: Seq<u8>| #[trigger] next.outcome(rest) == decode_header((bytes + chunk@) + rest, limits) by {
            assert(crate::decode::lands(r, rest, decoder.outcome(chunk@ + rest)));
        }
    } else if may_become_a_header(bytes + chunk@, limits) {
        let (more, entries, size, rest) = choose|more: Seq<u8>, entries: Entries, size: u64, rest: Seq<u8>| #[trigger]
            spells((bytes + chunk@) + more, entries, size, rest) && header_allowed(entries, size, limits);
        lemma_spelled((bytes + chunk@) + more, entries, size, rest, limits);
        assert(crate::decode::lands(r, more, decoder.outcome(chunk@ + more)));
    }
}

/// What a decoder gives at the end is what the bytes that it was handed say, and
/// they are a header within the limits.
pub proof fn law_a_decoder_gives_what_it_was_handed(
    decoder: HeaderDecoder,
    bytes: Seq<u8>,
    limits: Limits,
    header: (Attributes, u64),
) -> (entries: Entries)
    requires
        fed(&decoder, bytes, limits),
        call_ensures(HeaderDecoder::finish, (decoder,), header),
    ensures
        spells(bytes, entries, header.1, Seq::empty()),
        last_wins(entries, header.0@),
        header_allowed(entries, header.1, limits),
{
    let none = Seq::<u8>::empty();
    assert(bytes + none =~= bytes);
    assert(decoder.outcome(none) == (Outcome::Accepted { attributes: header.0@, size: header.1, rest: none }));
    let entries = lemma_unspelled(bytes, limits);
    lemma_last_wins(entries);
    entries
}

/// A header that arrives has come this far.
pub open spec fn come_so_far(header: &PendingHeader, bytes: Seq<u8>, limits: Limits) -> bool {
    forall|rest: Seq<u8>| #[trigger] header.outcome(rest) == decode_header(bytes + rest, limits)
}

/// A header that is waited for has not come at all. Where none is due, the
/// stream may end there.
pub proof fn law_a_header_is_waited_for_from_its_front(limits: Limits, required: PendingHeader, next: PendingHeader, n: usize)
    requires
        call_ensures(PendingHeader::required, (limits,), required),
        call_ensures(PendingHeader::next, (limits,), next),
        call_ensures(PendingHeader::limit, (&next,), n),
    ensures
        come_so_far(&required, Seq::empty(), limits),
        come_so_far(&next, Seq::empty(), limits),
        !required.may_end(),
        next.may_end(),
        n >= 1,
        n <= 65536,
{
    assert forall|rest: Seq<u8>| #[trigger] required.outcome(rest) == decode_header(Seq::<u8>::empty() + rest, limits) by {
        assert(Seq::<u8>::empty() + rest =~= rest);
    }
    assert forall|rest: Seq<u8>| #[trigger] next.outcome(rest) == decode_header(Seq::<u8>::empty() + rest, limits) by {
        assert(Seq::<u8>::empty() + rest =~= rest);
    }
}

/// Bytes of a header bring it further, or complete it, and then it says what all
/// of them say. They are refused only if no acceptable header starts so.
pub proof fn law_an_arriving_header_says_what_came(
    header: PendingHeader,
    bytes: Seq<u8>,
    limits: Limits,
    chunk: Vec<u8>,
    step: HeaderStep,
)
    requires
        come_so_far(&header, bytes, limits),
        call_ensures(PendingHeader::step, (header, ReadEvent::Bytes(chunk)), step),
    ensures
        match step {
            HeaderStep::Read(next) => come_so_far(&next, bytes + chunk@, limits) && !next.may_end(),
            HeaderStep::Header(attributes, size) => exists|entries: Entries| #[trigger]
                spells(bytes + chunk@, entries, size, Seq::empty()) && last_wins(entries, attributes@) && header_allowed(
                    entries,
                    size,
                    limits,
                ),
            HeaderStep::Failed(_) => !may_become_a_header(bytes + chunk@, limits),
            HeaderStep::Nothing => false,
        },
{
    let none = Seq::<u8>::empty();
    match step {
        HeaderStep::Read(next) => {
            assert forall|rest: Seq<u8>| #[trigger] next.outcome(rest) == decode_header((bytes + chunk@) + rest, limits) by {
                assert(next.outcome(rest) == header.outcome(chunk@ + rest));
                assert(bytes + (chunk@ + rest) =~= (bytes + chunk@) + rest);
            }
        },
        HeaderStep::Header(attributes, size) => {
            assert(header.outcome(chunk@ + none) == (Outcome::Accepted { attributes: attributes@, size, rest: none }));
            assert(bytes + (chunk@ + none) =~= bytes + chunk@);
            let entries = lemma_unspelled(bytes + chunk@, limits);
            lemma_last_wins(entries);
            assert(spells(bytes + chunk@, entries, size, none));
        },
        HeaderStep::Failed(e) => {
            if may_become_a_header(bytes + chunk@, limits) {
                let (more, entries, size, rest) = choose|more: Seq<u8>, entries: Entries, size: u64, rest: Seq<u8>| #[trigger]
                    spells((bytes + chunk@) + more, entries, size, rest) && header_allowed(entries, size, limits);
                lemma_spelled((bytes + chunk@) + more, entries, size, rest, limits);
                assert(header.outcome(chunk@ + more) is Refused);
                assert(bytes + (chunk@ + more) =~= (bytes + chunk@) + more);
            }
        },
        HeaderStep::Nothing => {},
    }
}

/// An end in the middle of a header came too early, and says whether that was
/// inside of a key or value.
pub proof fn law_an_end_in_a_header_came_too_early(decoder: &HeaderDecoder, inside_text: bool, e: Error)
    requires
        call_ensures(HeaderDecoder::is_in_text, (decoder,), inside_text),
        call_ensures(HeaderDecoder::end_of_input, (decoder,), e),
    ensures
        e matches Error::Io(io) && io.kind == ErrorKind::UnexpectedEof && (io.detail matches Detail::Message(words) && (inside_text
            ==> words@ == "attribute truncated"@) && (!inside_text ==> words@ == "failed to fill whole buffer"@)),
{
}

} // verus!
