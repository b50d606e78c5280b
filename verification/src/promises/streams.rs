//! Reading and writing streams.

use vstd::prelude::*;

use crate::attributes::{Attributes, Entries};
use crate::builder::FlowFileBuilder;
use crate::decode::{decode_header, reports, Outcome};
use crate::error::{Detail, Error, ErrorKind, IoError, Result};
use crate::flow_file::FlowFile;
use crate::io::{copy, read_all, read_up_to, skip, ByteReader, Cursor, Reader, Take, Writer};
use crate::limits::{no_limits, Limits};
use crate::sync::{parse_header, FlowFiles, FlowFilesReader, FlowFilesWriter, StreamedContent};
use super::layout::{head, in_order, last_wins, lemma_head, lemma_last_wins};
use super::parsing::{attributes_allowed, complains, lemma_cut, lemma_spelled, size_allowed, spells, stops_inside};

verus! {

/// Reading so many bytes gives the first so many, or all there are before a
/// clean end, and leaves what follows. A failure that comes before is told.
pub proof fn law_so_many_bytes_are_read<R: Reader>(reader: &mut R, n: u64, r: core::result::Result<Vec<u8>, IoError>)
    requires
        call_ensures(read_up_to::<R>, (reader, n), r),
    ensures
        (*old(reader)).pending().len() >= n ==> {
            &&& r matches Ok(bytes)
            &&& bytes@ == (*old(reader)).pending().take(n as int)
            &&& (*final(reader)).pending() == (*old(reader)).pending().skip(n as int)
        },
        (*old(reader)).pending().len() < n ==> {
            &&& (*final(reader)).pending().len() == 0
            &&& match (*old(reader)).failure() {
                Some(e) => r == Err::<Vec<u8>, IoError>(e),
                None => r matches Ok(bytes) && bytes@ == (*old(reader)).pending(),
            }
        },
        (*final(reader)).failure() == (*old(reader)).failure(),
{
    let pending = (*old(reader)).pending();
    if pending.len() == n {
        assert(pending.take(n as int) =~= pending);
        assert(pending.skip(n as int) =~= Seq::empty());
    }
}

/// Reading everything gives everything, or the failure it ends in.
pub proof fn law_everything_is_read<R: Reader>(reader: &mut R, r: core::result::Result<Vec<u8>, IoError>)
    requires
        call_ensures(read_all::<R>, (reader,), r),
    ensures
        match (*old(reader)).failure() {
            Some(e) => r == Err::<Vec<u8>, IoError>(e),
            None => r matches Ok(bytes) && bytes@ == (*old(reader)).pending(),
        },
        (*final(reader)).pending().len() == 0,
{
}

/// Reading past so many bytes leaves what follows them and says how many they
/// were.
pub proof fn law_so_many_bytes_are_skipped<R: Reader>(reader: &mut R, n: u64, r: core::result::Result<u64, IoError>)
    requires
        call_ensures(skip::<R>, (reader, n), r),
    ensures
        (*old(reader)).pending().len() >= n ==> r == Ok::<u64, IoError>(n) && (*final(reader)).pending()
            == (*old(reader)).pending().skip(n as int),
        (*old(reader)).pending().len() < n ==> {
            &&& (*final(reader)).pending().len() == 0
            &&& match (*old(reader)).failure() {
                Some(e) => r == Err::<u64, IoError>(e),
                None => r matches Ok(skipped) && skipped == (*old(reader)).pending().len(),
            }
        },
{
    let pending = (*old(reader)).pending();
    if pending.len() == n {
        assert(pending.skip(n as int) =~= Seq::empty());
    }
}

/// A writer takes so many bytes more.
pub open spec fn has_room_for(budget: Option<(nat, IoError)>, n: nat) -> bool {
    match budget {
        Some((room, _)) => n <= room,
        None => true,
    }
}

/// Copying so many bytes writes the first so many, or all there are, and leaves
/// what follows. A writer that refuses some has what it took, and its refusal
/// is told.
pub proof fn law_so_many_bytes_are_copied<R: Reader, W: Writer>(
    reader: &mut R,
    n: u64,
    writer: &mut W,
    r: core::result::Result<u64, IoError>,
)
    requires
        call_ensures(copy::<R, W>, (reader, n, writer), r),
    ensures
        (*old(reader)).pending().len() >= n && has_room_for((*old(writer)).budget(), n as nat) ==> {
            &&& r == Ok::<u64, IoError>(n)
            &&& (*final(writer)).written() == (*old(writer)).written() + (*old(reader)).pending().take(n as int)
            &&& (*final(reader)).pending() == (*old(reader)).pending().skip(n as int)
        },
        (*old(reader)).pending().len() < n && has_room_for((*old(writer)).budget(), (*old(reader)).pending().len()) ==> {
            &&& (*final(writer)).written() == (*old(writer)).written() + (*old(reader)).pending()
            &&& (*final(reader)).pending().len() == 0
            &&& match (*old(reader)).failure() {
                Some(e) => r == Err::<u64, IoError>(e),
                None => r matches Ok(m) && m == (*old(reader)).pending().len(),
            }
        },
        (*old(writer)).budget() matches Some((room, refusal)) ==> (room < n && room < (*old(reader)).pending().len() ==> {
            &&& r == Err::<u64, IoError>(refusal)
            &&& (*final(writer)).written() == (*old(writer)).written() + (*old(reader)).pending().take(room as int)
        }),
{
    let pending = (*old(reader)).pending();
    if pending.len() == n {
        assert(pending.take(n as int) =~= pending);
        assert(pending.skip(n as int) =~= Seq::empty());
    }
    if let Some((room, refusal)) = (*old(writer)).budget() {
        if room < n && n < pending.len() {
            assert(pending.take(n as int).take(room as int) =~= pending.take(room as int));
        }
    }
}

/// The first bytes of another reader are its first bytes, and giving it back
/// gives that reader.
pub proof fn law_a_limited_reader_holds_the_first_bytes<R: Reader>(inner: R, limit: u64, taken: Take<R>, back: R)
    requires
        call_ensures(Take::<R>::new, (inner, limit), taken),
        call_ensures(Take::<R>::into_inner, (taken,), back),
    ensures
        back == inner,
        inner.pending().len() >= limit ==> taken.pending() == inner.pending().take(limit as int) && taken.failure() is None,
        inner.pending().len() < limit ==> taken.pending() == inner.pending() && taken.failure() == inner.failure(),
{
    if inner.pending().len() == limit {
        assert(inner.pending().take(limit as int) =~= inner.pending());
    }
}

/// A reader of bytes in memory holds all of them and ends cleanly.
pub proof fn law_bytes_in_memory_are_read_from_the_start(bytes: Vec<u8>, reader: Cursor, all: &Vec<u8>, slice: &[u8], other: ByteReader, rest: &[u8])
    requires
        call_ensures(Cursor::new, (bytes,), reader),
        call_ensures(Cursor::get_ref, (&reader,), all),
        call_ensures(ByteReader::new, (slice,), other),
        call_ensures(ByteReader::rest, (&other,), rest),
    ensures
        reader.pending() == bytes@,
        reader.failure() is None,
        all@ == bytes@,
        other.pending() == slice@,
        other.failure() is None,
        rest@ == slice@,
{
}

/// No limits at all.
pub open spec fn unlimited() -> Limits {
    Limits { max_attributes: None, max_attribute_len: None, max_total_attribute_len: None, max_content_len: None }
}

/// Nothing about a header is above the limits.
pub open spec fn header_allowed(entries: Entries, size: u64, limits: Limits) -> bool {
    attributes_allowed(entries, limits) && size_allowed(size, limits)
}

/// The complaint about a header that is above the limits.
pub open spec fn header_complaint(e: Error, entries: Entries, size: u64, limits: Limits) -> bool {
    if !attributes_allowed(entries, limits) {
        complains(e, entries, limits)
    } else {
        &&& e matches Error::ContentTooLarge { size: declared, limit }
        &&& declared == size
        &&& limits.max_content_len == Some(limit)
        &&& size > limit
    }
}

proof fn lemma_complaint(bytes: Seq<u8>, entries: Entries, size: u64, rest: Seq<u8>, limits: Limits, e: Error)
    requires
        spells(bytes, entries, size, rest),
        !header_allowed(entries, size, limits),
        decode_header(bytes, limits) matches Outcome::Refused { why, .. } && reports(e, why),
    ensures
        header_complaint(e, entries, size, limits),
{
    lemma_spelled(bytes, entries, size, rest, limits);
}

/// The error that a failure of the source is told as: a truncation is the
/// mismatch that it carries, and anything else an I/O error.
pub open spec fn failed_with(e: Error, failure: IoError) -> bool {
    match failure.detail {
        Detail::Carried(inner) => match *inner {
            Error::SizeMismatch { .. } => if failure.kind == ErrorKind::UnexpectedEof {
                e == *inner
            } else {
                e == Error::Io(failure)
            },
            _ => e == Error::Io(failure),
        },
        _ => e == Error::Io(failure),
    }
}

/// A header is read from a stream, after a byte that was taken from it before,
/// and what follows it stays. One above the limits is refused for what is.
#[verifier::spinoff_prover]
#[verifier::rlimit(50)]
pub proof fn law_a_header_is_read_from_a_stream<R: Reader>(
    reader: &mut R,
    first: Option<u8>,
    limits: Limits,
    entries: Entries,
    size: u64,
    rest: Seq<u8>,
    r: Result<(Attributes, u64)>,
)
    requires
        match first {
            Some(byte) => spells(seq![byte] + (*old(reader)).pending(), entries, size, rest),
            None => spells((*old(reader)).pending(), entries, size, rest),
        },
        call_ensures(parse_header::<R>, (reader, first, limits), r),
    ensures
        header_allowed(entries, size, limits) ==> {
            &&& r matches Ok((attributes, declared))
            &&& last_wins(entries, attributes@)
            &&& declared == size
            &&& (*final(reader)).pending() == rest
        },
        !header_allowed(entries, size, limits) ==> (r matches Err(e) && header_complaint(e, entries, size, limits)),
{
    let pending = (*old(reader)).pending();
    let bytes = crate::sync::taken(first) + pending;
    if first is None {
        assert(bytes =~= pending);
    }
    lemma_header_read(bytes, (*old(reader)).failure(), limits, entries, size, rest, r, (*final(reader)).pending());
}

#[verifier::spinoff_prover]
#[verifier::rlimit(50)]
proof fn lemma_header_read(
    bytes: Seq<u8>,
    failure: Option<IoError>,
    limits: Limits,
    entries: Entries,
    size: u64,
    rest: Seq<u8>,
    r: Result<(Attributes, u64)>,
    after: Seq<u8>,
)
    requires
        spells(bytes, entries, size, rest),
        crate::sync::header_read(bytes, failure, limits, r, after),
    ensures
        header_allowed(entries, size, limits) ==> {
            &&& r matches Ok((attributes, declared))
            &&& last_wins(entries, attributes@)
            &&& declared == size
            &&& after == rest
        },
        !header_allowed(entries, size, limits) ==> (r matches Err(e) && header_complaint(e, entries, size, limits)),
{
    lemma_spelled(bytes, entries, size, rest, limits);
    lemma_last_wins(entries);
    let outcome = decode_header(bytes, limits);
    if header_allowed(entries, size, limits) {
        assert(outcome is Accepted);
    } else {
        assert(outcome matches Outcome::Refused { why, .. } && !(why is Truncated));
        assert(r is Err);
        lemma_complaint(bytes, entries, size, rest, limits, r->Err_0);
    }
}

/// A flow file whose content is read on demand has what its header says, and
/// its content starts right after that.
pub open spec fn opens<R: Reader>(f: FlowFile<Take<R>>, entries: Entries, size: u64, rest: Seq<u8>, failure: Option<IoError>) -> bool {
    &&& f.size == size
    &&& last_wins(entries, f.attributes@)
    &&& f.content.limit == size
    &&& f.content.inner.pending() == rest
    &&& f.content.inner.failure() == failure
}

/// Parsing a stream gives a flow file with what its header says and the content
/// that follows.
#[verifier::spinoff_prover]
#[verifier::rlimit(50)]
pub proof fn law_a_stream_is_parsed_lazily<R: Reader>(
    reader: R,
    limits: Limits,
    entries: Entries,
    size: u64,
    rest: Seq<u8>,
    r: Result<FlowFile<Take<R>>>,
    s: Result<FlowFile<Take<R>>>,
)
    requires
        spells(reader.pending(), entries, size, rest),
        call_ensures(FlowFile::<Take<R>>::parse_with_limits, (reader, limits), r),
        call_ensures(FlowFile::<Take<R>>::parse, (reader,), s),
    ensures
        header_allowed(entries, size, limits) ==> (r matches Ok(f) && opens(f, entries, size, rest, reader.failure())),
        !header_allowed(entries, size, limits) ==> (r matches Err(e) && header_complaint(e, entries, size, limits)),
        s matches Ok(f) && opens(f, entries, size, rest, reader.failure()),
{
    lemma_spelled(reader.pending(), entries, size, rest, limits);
    lemma_spelled(reader.pending(), entries, size, rest, no_limits());
    lemma_last_wins(entries);
}

/// The next flow file of a stream has what its header says and the content that
/// follows it there. At a clean end there is none.
#[verifier::spinoff_prover]
#[verifier::rlimit(50)]
pub proof fn law_the_next_flow_file_is_parsed_lazily<'r, R: Reader>(
    reader: &'r mut R,
    limits: Limits,
    entries: Entries,
    size: u64,
    rest: Seq<u8>,
    r: Result<Option<FlowFile<Take<&'r mut R>>>>,
)
    requires
        call_ensures(FlowFile::<Take<&'r mut R>>::parse_next_with_limits, (reader, limits), r),
    ensures
        spells((*old(reader)).pending(), entries, size, rest) && header_allowed(entries, size, limits) ==> {
            &&& r matches Ok(Some(f))
            &&& f.size == size
            &&& last_wins(entries, f.attributes@)
            &&& f.content.limit == size
            &&& (*f.content.inner).pending() == rest
            &&& (*f.content.inner).failure() == (*old(reader)).failure()
        },
        spells((*old(reader)).pending(), entries, size, rest) && !header_allowed(entries, size, limits) ==> (r matches Err(e)
            && header_complaint(e, entries, size, limits)),
        (*old(reader)).pending().len() == 0 && (*old(reader)).failure() is None ==> (r matches Ok(None)),
{
    let bytes = (*old(reader)).pending();
    if spells(bytes, entries, size, rest) {
        lemma_spelled(bytes, entries, size, rest, limits);
        lemma_last_wins(entries);
        assert(bytes.len() >= 7);
    }
}

/// The same without limits.
#[verifier::spinoff_prover]
#[verifier::rlimit(50)]
pub proof fn law_the_next_flow_file_is_parsed_lazily_without_limits<'r, R: Reader>(
    reader: &'r mut R,
    entries: Entries,
    size: u64,
    rest: Seq<u8>,
    r: Result<Option<FlowFile<Take<&'r mut R>>>>,
)
    requires
        call_ensures(FlowFile::<Take<&'r mut R>>::parse_next, (reader,), r),
    ensures
        spells((*old(reader)).pending(), entries, size, rest) ==> {
            &&& r matches Ok(Some(f))
            &&& f.size == size
            &&& last_wins(entries, f.attributes@)
            &&& f.content.limit == size
            &&& (*f.content.inner).pending() == rest
            &&& (*f.content.inner).failure() == (*old(reader)).failure()
        },
        (*old(reader)).pending().len() == 0 && (*old(reader)).failure() is None ==> (r matches Ok(None)),
{
    let bytes = (*old(reader)).pending();
    if spells(bytes, entries, size, rest) {
        lemma_spelled(bytes, entries, size, rest, no_limits());
        lemma_last_wins(entries);
        assert(bytes.len() >= 7);
    }
}

/// What comes of reading a whole flow file from a stream: the first so many
/// bytes after the header are its content, and what follows them stays. Too few
/// are a mismatch with both sizes, or the failure that the stream ends in.
pub open spec fn wholly(
    r: Result<FlowFile<Vec<u8>>>,
    entries: Entries,
    size: u64,
    rest: Seq<u8>,
    failure: Option<IoError>,
    limits: Limits,
    after: Seq<u8>,
) -> bool {
    if !header_allowed(entries, size, limits) {
        r matches Err(e) && header_complaint(e, entries, size, limits)
    } else if rest.len() >= size {
        &&& r matches Ok(f)
        &&& f.size == size
        &&& f.content@ == rest.take(size as int)
        &&& last_wins(entries, f.attributes@)
        &&& after == rest.skip(size as int)
    } else {
        match failure {
            Some(io) => r matches Err(e) && failed_with(e, io),
            None => r matches Err(Error::SizeMismatch { expected, actual }) && expected == size && actual == rest.len(),
        }
    }
}

/// A flow file is read whole from a stream.
#[verifier::spinoff_prover]
#[verifier::rlimit(50)]
pub proof fn law_a_stream_is_read_whole<R: Reader>(
    reader: &mut R,
    limits: Limits,
    entries: Entries,
    size: u64,
    rest: Seq<u8>,
    r: Result<FlowFile<Vec<u8>>>,
)
    requires
        spells((*old(reader)).pending(), entries, size, rest),
        call_ensures(FlowFile::<Vec<u8>>::from_reader_with_limits::<R>, (reader, limits), r),
    ensures
        wholly(r, entries, size, rest, (*old(reader)).failure(), limits, (*final(reader)).pending()),
{
    lemma_spelled((*old(reader)).pending(), entries, size, rest, limits);
    lemma_last_wins(entries);
}

/// The same without limits.
#[verifier::spinoff_prover]
#[verifier::rlimit(50)]
pub proof fn law_a_stream_is_read_whole_without_limits<R: Reader>(
    reader: &mut R,
    entries: Entries,
    size: u64,
    rest: Seq<u8>,
    r: Result<FlowFile<Vec<u8>>>,
)
    requires
        spells((*old(reader)).pending(), entries, size, rest),
        call_ensures(FlowFile::<Vec<u8>>::from_reader::<R>, (reader,), r),
    ensures
        wholly(r, entries, size, rest, (*old(reader)).failure(), unlimited(), (*final(reader)).pending()),
{
    lemma_spelled((*old(reader)).pending(), entries, size, rest, no_limits());
    lemma_last_wins(entries);
}

/// Going through a stream gives one flow file after the other, each read whole,
/// until a clean end or the first refusal. After either there is no more.
#[verifier::spinoff_prover]
#[verifier::rlimit(50)]
pub proof fn law_a_stream_is_gone_through<R: Reader>(
    files: &mut FlowFiles<R>,
    entries: Entries,
    size: u64,
    rest: Seq<u8>,
    r: Option<Result<FlowFile<Vec<u8>>>>,
)
    requires
        call_ensures(FlowFiles::<R>::next, (files,), r),
    ensures
        final(files).caps() == old(files).caps(),
        old(files).fused() ==> r is None && final(files).fused() && final(files).source() == old(files).source(),
        !old(files).fused() && old(files).source().pending().len() == 0 && old(files).source().failure() is None ==> r is None
            && final(files).fused(),
        !old(files).fused() && spells(old(files).source().pending(), entries, size, rest) ==> {
            &&& r matches Some(s)
            &&& wholly(s, entries, size, rest, old(files).source().failure(), old(files).caps(), final(files).source().pending())
            &&& final(files).fused() <==> s is Err
        },
        !old(files).fused() ==> (final(files).fused() <==> !(r matches Some(Ok(_)))),
{
    let bytes = old(files).source().pending();
    if spells(bytes, entries, size, rest) {
        lemma_spelled(bytes, entries, size, rest, old(files).caps());
        lemma_last_wins(entries);
        assert(bytes.len() >= 7);
        let failure = old(files).source().failure();
        if !old(files).fused() {
            assert(crate::sync::next_buffered(bytes, failure, old(files).caps(), r, final(files).source().pending()));
            assert(r is Some);
            if header_allowed(entries, size, old(files).caps()) {
                assert(crate::sync::read_outcome(rest, failure, size) is Ok <==> rest.len() >= size);
                if rest.len() < size && failure is None {
                    assert(r->0 matches Err(Error::SizeMismatch { expected, actual }) && expected == size && actual == rest.len());
                }
            } else {
                assert(r->0 is Err);
            }
            assert(wholly(r->0, entries, size, rest, failure, old(files).caps(), final(files).source().pending()));
        }
    }
}

/// Going through a stream starts at its front, with the limits given.
pub proof fn law_going_through_a_stream_starts_at_its_front<R: Reader>(
    reader: R,
    limits: Limits,
    plain: FlowFiles<R>,
    limited: FlowFiles<R>,
    lazy: FlowFilesReader<R>,
    limited_lazy: FlowFilesReader<R>,
)
    requires
        call_ensures(FlowFiles::<R>::new, (reader,), plain),
        call_ensures(FlowFiles::<R>::with_limits, (reader, limits), limited),
        call_ensures(FlowFilesReader::<R>::new, (reader,), lazy),
        call_ensures(FlowFilesReader::<R>::with_limits, (reader, limits), limited_lazy),
    ensures
        plain.source() == reader && plain.caps() == unlimited() && !plain.fused(),
        limited.source() == reader && limited.caps() == limits && !limited.fused(),
        lazy.source() == reader && lazy.caps() == unlimited() && lazy.left() == 0 && !lazy.fused(),
        limited_lazy.source() == reader && limited_lazy.caps() == limits && limited_lazy.left() == 0 && !limited_lazy.fused(),
{
}

/// The next flow file of a stream that is read on demand starts after whatever
/// was left unread of the content before it. It has what its header says, and
/// all of its content is still to be read. Where the content before is cut short
/// that is told, with both sizes, and after a refusal or the end there is no
/// more.
#[verifier::spinoff_prover]
#[verifier::rlimit(50)]
pub proof fn law_what_was_left_unread_is_passed_over<R: Reader>(
    files: &mut FlowFilesReader<R>,
    entries: Entries,
    size: u64,
    rest: Seq<u8>,
    r: Result<Option<FlowFile<StreamedContent<'_, R>>>>,
)
    requires
        !old(files).fused(),
        call_ensures(FlowFilesReader::<R>::next, (files,), r),
    ensures
        ({
            let pending = old(files).source().pending();
            let left = old(files).left() as int;
            let limits = old(files).caps();
            &&& pending.len() >= left && spells(pending.skip(left), entries, size, rest) && header_allowed(entries, size, limits) ==> {
                &&& r matches Ok(Some(f))
                &&& f.size == size
                &&& last_wins(entries, f.attributes@)
                &&& (*f.content.inner).pending() == rest
                &&& *f.content.unread == size
            }
            &&& pending.len() >= left && spells(pending.skip(left), entries, size, rest) && !header_allowed(entries, size, limits) ==> {
                &&& r matches Err(e)
                &&& header_complaint(e, entries, size, limits)
            }
            &&& pending.len() == left && old(files).source().failure() is None ==> (r matches Ok(None))
            &&& pending.len() < left ==> match old(files).source().failure() {
                Some(io) => r matches Err(e) && failed_with(e, io),
                None => {
                    &&& r matches Err(Error::SizeMismatch { expected, actual })
                    &&& expected == old(files).declared()
                    &&& left <= expected ==> actual == expected - left + pending.len()
                },
            }
        }),
        final(files).fused() <==> !(r matches Ok(Some(_))),
{
    let pending = old(files).source().pending();
    let left = old(files).left() as int;
    if pending.len() == left {
        assert(pending.skip(left) =~= Seq::empty());
    }
    if pending.len() >= left {
        assert(old(files).upcoming() =~= pending.skip(left));
        if spells(pending.skip(left), entries, size, rest) {
            lemma_spelled(pending.skip(left), entries, size, rest, old(files).caps());
            lemma_last_wins(entries);
            assert(pending.skip(left).len() >= 7);
        }
    }
}

/// A flow file is streamed out as its header and as many bytes of its content
/// as it declares. If there are fewer, they are written and the mismatch is
/// told, and a failure of the content or of the writer is told as it is.
#[verifier::spinoff_prover]
#[verifier::rlimit(50)]
pub proof fn law_a_flow_file_is_streamed_out<R: Reader, W: Writer>(
    f: FlowFile<R>,
    writer: &mut W,
    r: core::result::Result<u64, IoError>,
) -> (entries: Entries)
    requires
        f.attributes@.dom().finite(),
        call_ensures(FlowFile::<R>::write_to::<W>, (f, writer), r),
    ensures
        in_order(entries, f.attributes@),
        ({
            let header = head(entries, f.size as nat);
            let pending = f.content.pending();
            &&& has_room_for((*old(writer)).budget(), header.len() + f.size as nat) && pending.len() >= f.size ==> {
                &&& r == Ok::<u64, IoError>(f.size)
                &&& (*final(writer)).written() == (*old(writer)).written() + header + pending.take(f.size as int)
            }
            &&& has_room_for((*old(writer)).budget(), header.len() + pending.len()) && pending.len() < f.size ==> {
                &&& (*final(writer)).written() == (*old(writer)).written() + header + pending
                &&& match f.content.failure() {
                    Some(e) => r == Err::<u64, IoError>(e),
                    None => {
                        &&& r matches Err(e)
                        &&& e.kind == ErrorKind::UnexpectedEof
                        &&& e.detail matches Detail::Carried(inner)
                        &&& *inner matches Error::SizeMismatch { expected, actual }
                        &&& expected == f.size
                        &&& actual == pending.len()
                    },
                }
            }
            &&& (*old(writer)).budget() matches Some((room, refusal)) ==> (room < header.len() ==> r == Err::<u64, IoError>(refusal)
                && (*final(writer)).written() == (*old(writer)).written() + header.take(room as int))
        }),
{
    let entries = lemma_head(f.attributes@, f.size);
    let header = head(entries, f.size as nat);
    let pending = f.content.pending();
    let before = (*old(writer)).written();
    let bytes = crate::io::take_up_to(pending, f.size);
    if pending.len() == f.size {
        assert(pending.take(f.size as int) =~= pending);
    }
    assert(before + (header + bytes) =~= before + header + bytes);
    entries
}

/// A flow file in memory is written as its header and its content.
pub proof fn law_a_flow_file_in_memory_is_written<W: Writer>(
    f: &FlowFile<Vec<u8>>,
    writer: &mut W,
    r: core::result::Result<u64, IoError>,
) -> (entries: Entries)
    requires
        f.attributes@.dom().finite(),
        call_ensures(FlowFile::<Vec<u8>>::write_bytes_to::<W>, (f, writer), r),
    ensures
        in_order(entries, f.attributes@),
        ({
            let bytes = head(entries, f.size as nat) + f.content@;
            &&& has_room_for((*old(writer)).budget(), bytes.len()) ==> r == Ok::<u64, IoError>(f.size) && (*final(writer)).written()
                == (*old(writer)).written() + bytes
            &&& (*old(writer)).budget() matches Some((room, refusal)) ==> (room < bytes.len() ==> r == Err::<u64, IoError>(refusal)
                && (*final(writer)).written() == (*old(writer)).written() + bytes.take(room as int))
        }),
{
    lemma_head(f.attributes@, f.size)
}

/// What comes of reading a declared content: its bytes if there are enough,
/// and otherwise the failure they end in, or a truncation with both sizes.
pub open spec fn content_failure(e: IoError, size: u64, pending: Seq<u8>, failure: Option<IoError>) -> bool {
    &&& pending.len() < size
    &&& match failure {
        Some(io) => e == io,
        None => {
            &&& e.kind == ErrorKind::UnexpectedEof
            &&& e.detail matches Detail::Carried(inner)
            &&& *inner matches Error::SizeMismatch { expected, actual }
            &&& expected == size
            &&& actual == pending.len()
        },
    }
}

/// A content is read into memory, or passed over, up to its declared size.
pub proof fn law_a_declared_content_is_read_or_passed_over<R: Reader>(
    f: FlowFile<R>,
    read: core::result::Result<FlowFile<Vec<u8>>, IoError>,
    skipped: core::result::Result<u64, IoError>,
)
    requires
        f.content.pending().len() <= u64::MAX,
        call_ensures(FlowFile::<R>::into_memory, (f,), read),
        call_ensures(FlowFile::<R>::skip_content, (f,), skipped),
    ensures
        match read {
            Ok(g) => {
                &&& f.content.pending().len() >= f.size
                &&& g.size == f.size
                &&& g.attributes@ == f.attributes@
                &&& g.content@ == f.content.pending().take(f.size as int)
            },
            Err(e) => content_failure(e, f.size, f.content.pending(), f.content.failure()),
        },
        match skipped {
            Ok(n) => f.content.pending().len() >= f.size && n == f.size,
            Err(e) => content_failure(e, f.size, f.content.pending(), f.content.failure()),
        },
{
}

/// Reading or passing over a content that was parsed out of a stream leaves the
/// stream right after it.
pub proof fn law_a_borrowed_content_is_left_behind<'r, R: Reader>(
    f: FlowFile<Take<&'r mut R>>,
    read: core::result::Result<FlowFile<Vec<u8>>, IoError>,
)
    requires
        f.content.limit == f.size,
        call_ensures(FlowFile::<Take<&'r mut R>>::read_borrowed, (f,), read),
    ensures
        (*old(f.content.inner)).pending().len() >= f.size ==> {
            &&& read matches Ok(g)
            &&& g.size == f.size
            &&& g.attributes@ == f.attributes@
            &&& g.content@ == (*old(f.content.inner)).pending().take(f.size as int)
            &&& (*final(f.content.inner)).pending() == (*old(f.content.inner)).pending().skip(f.size as int)
        },
        (*old(f.content.inner)).pending().len() < f.size ==> read is Err && (*final(f.content.inner)).pending().len() == 0,
{
    let pending = (*old(f.content.inner)).pending();
    if pending.len() == f.size {
        assert(pending.skip(f.size as int) =~= Seq::empty());
        assert(pending.take(f.size as int) =~= pending);
    }
    if pending.len() >= f.size {
        assert(pending.take(f.size as int).take(f.size as int) =~= pending.take(f.size as int));
    }
}

/// The same of passing it over.
pub proof fn law_a_skipped_content_is_left_behind<'r, R: Reader>(
    f: FlowFile<Take<&'r mut R>>,
    skipped: core::result::Result<u64, IoError>,
)
    requires
        f.content.limit == f.size,
        call_ensures(FlowFile::<Take<&'r mut R>>::skip_borrowed, (f,), skipped),
    ensures
        (*old(f.content.inner)).pending().len() >= f.size ==> skipped == Ok::<u64, IoError>(f.size) && (*final(f.content.inner)).pending()
            == (*old(f.content.inner)).pending().skip(f.size as int),
        (*old(f.content.inner)).pending().len() < f.size ==> skipped is Err && (*final(f.content.inner)).pending().len() == 0,
{
    let pending = (*old(f.content.inner)).pending();
    if pending.len() == f.size {
        assert(pending.skip(f.size as int) =~= Seq::empty());
        assert(pending.take(f.size as int) =~= pending);
    }
}

/// A writer of flow files starts with none, and counts those that it wrote
/// whole. Once a write fails it takes no more, and what it then answers says so.
pub proof fn law_a_writer_counts_what_it_wrote<W: Writer>(
    w: &mut FlowFilesWriter<W>,
    f: &FlowFile<Vec<u8>>,
    r: core::result::Result<u64, IoError>,
) -> (entries: Entries)
    requires
        f.attributes@.dom().finite(),
        call_ensures(FlowFilesWriter::<W>::write_bytes, (w, f), r),
    ensures
        in_order(entries, f.attributes@),
        ({
            let bytes = head(entries, f.size as nat) + f.content@;
            &&& old(w).broken() ==> {
                &&& r matches Err(e)
                &&& e.kind == ErrorKind::BrokenPipe
                &&& e.detail matches Detail::Carried(inner)
                &&& *inner is WriterPoisoned
                &&& *final(w) == *old(w)
            }
            &&& !old(w).broken() && has_room_for(old(w).sink().budget(), bytes.len()) ==> {
                &&& r == Ok::<u64, IoError>(f.size)
                &&& final(w).complete() == old(w).complete() + 1
                &&& !final(w).broken()
                &&& final(w).sink().written() == old(w).sink().written() + bytes
            }
            &&& !old(w).broken() && !has_room_for(old(w).sink().budget(), bytes.len()) ==> {
                &&& r is Err
                &&& final(w).complete() == old(w).complete()
                &&& final(w).broken()
            }
        }),
{
    lemma_head(f.attributes@, f.size)
}

/// The same of a flow file whose content is streamed.
#[verifier::spinoff_prover]
#[verifier::rlimit(50)]
pub proof fn law_a_writer_counts_what_it_streamed<W: Writer, R: Reader>(
    w: &mut FlowFilesWriter<W>,
    f: FlowFile<R>,
    r: core::result::Result<u64, IoError>,
) -> (entries: Entries)
    requires
        f.attributes@.dom().finite(),
        call_ensures(FlowFilesWriter::<W>::write::<R>, (w, f), r),
    ensures
        in_order(entries, f.attributes@),
        ({
            let header = head(entries, f.size as nat);
            &&& old(w).broken() ==> {
                &&& r matches Err(e)
                &&& e.kind == ErrorKind::BrokenPipe
                &&& e.detail matches Detail::Carried(inner)
                &&& *inner is WriterPoisoned
                &&& *final(w) == *old(w)
            }
            &&& !old(w).broken() ==> (final(w).broken() <==> r is Err)
            &&& !old(w).broken() && r is Err ==> final(w).complete() == old(w).complete()
            &&& !old(w).broken() && r is Ok ==> {
                &&& r == Ok::<u64, IoError>(f.size)
                &&& final(w).complete() == old(w).complete() + 1
                &&& f.content.pending().len() >= f.size
                &&& final(w).sink().written() == old(w).sink().written() + header + f.content.pending().take(f.size as int)
            }
            &&& !old(w).broken() && has_room_for(old(w).sink().budget(), header.len() + f.size as nat) && f.content.pending().len() >= f.size
                ==> r is Ok
        }),
{
    let entries = lemma_head(f.attributes@, f.size);
    let header = head(entries, f.size as nat);
    let pending = f.content.pending();
    let before = old(w).sink().written();
    let bytes = crate::io::take_up_to(pending, f.size);
    if pending.len() == f.size {
        assert(pending.take(f.size as int) =~= pending);
    }
    assert(before + (header + bytes) =~= before + header + bytes);
    entries
}

/// A writer of flow files tells its count and whether it is poisoned, and a
/// failure poisons it for good.
pub proof fn law_a_failure_poisons_a_writer<W>(
    writer: W,
    fresh: FlowFilesWriter<W>,
    w: &mut FlowFilesWriter<W>,
    result: core::result::Result<u64, IoError>,
    r: core::result::Result<u64, IoError>,
)
    requires
        call_ensures(FlowFilesWriter::<W>::new, (writer,), fresh),
        call_ensures(FlowFilesWriter::<W>::poison_on_err::<u64>, (w, result), r),
    ensures
        fresh.complete() == 0,
        !fresh.broken(),
        fresh.sink() == writer,
        r == result,
        final(w).broken() <==> old(w).broken() || result is Err,
        final(w).complete() == old(w).complete(),
        final(w).sink() == old(w).sink(),
{
}

/// What a writer of flow files tells of itself.
pub proof fn law_a_writer_tells_of_itself<W>(
    w: &FlowFilesWriter<W>,
    poisoned: bool,
    count: u64,
    guarded: core::result::Result<(), IoError>,
)
    requires
        call_ensures(FlowFilesWriter::<W>::is_poisoned, (w,), poisoned),
        call_ensures(FlowFilesWriter::<W>::count, (w,), count),
        call_ensures(FlowFilesWriter::<W>::guard, (w,), guarded),
    ensures
        poisoned == w.broken(),
        count == w.complete(),
        guarded is Err <==> poisoned,
        guarded matches Err(e) ==> {
            &&& e.kind == ErrorKind::BrokenPipe
            &&& e.detail matches Detail::Carried(inner)
            &&& *inner is WriterPoisoned
        },
{
}

/// Flushing a writer of flow files flushes what is under it, and a flush that
/// fails poisons it.
pub proof fn law_a_failed_flush_poisons_a_writer<W: Writer>(
    w: &mut FlowFilesWriter<W>,
    r: core::result::Result<(), IoError>,
    other: FlowFilesWriter<W>,
    done: core::result::Result<W, IoError>,
)
    requires
        call_ensures(FlowFilesWriter::<W>::flush, (w,), r),
        call_ensures(FlowFilesWriter::<W>::finish, (other,), done),
    ensures
        final(w).sink().written() == old(w).sink().written(),
        final(w).complete() == old(w).complete(),
        old(w).sink().flush_failure() matches Some(e) ==> r == Err::<(), IoError>(e) && final(w).broken(),
        old(w).sink().flush_failure() is None ==> r is Ok && final(w).sink().flushed() == final(w).sink().written() 
            && final(w).broken() == old(w).broken(),
        other.sink().flush_failure() matches Some(e) ==> done == Err::<W, IoError>(e),
        other.sink().flush_failure() is None ==> (done matches Ok(under) && under.written() == other.sink().written()
            && under.flushed() == under.written()),
{
}

/// Building a flow file from a reader reads all of it, and declares as much.
pub proof fn law_a_buffered_flow_file_declares_what_was_read<R: Reader>(
    builder: FlowFileBuilder,
    content: R,
    r: core::result::Result<FlowFile<Vec<u8>>, IoError>,
)
    requires
        call_ensures(FlowFileBuilder::buffered::<R>, (builder, content), r),
    ensures
        match content.failure() {
            Some(e) => r == Err::<FlowFile<Vec<u8>>, IoError>(e),
            None => r matches Ok(f) && f.content@ == content.pending() && f.size == f.content@.len() && f.attributes@ == builder@,
        },
{
}

/// Streaming out a content that was parsed out of a stream leaves that stream
/// right after it.
#[verifier::spinoff_prover]
#[verifier::rlimit(50)]
pub proof fn law_a_streamed_out_content_is_left_behind<'r, R: Reader, W: Writer>(
    f: FlowFile<Take<&'r mut R>>,
    writer: &mut W,
    r: core::result::Result<u64, IoError>,
) -> (entries: Entries)
    requires
        f.content.limit == f.size,
        f.attributes@.dom().finite(),
        (*old(f.content.inner)).pending().len() >= f.size,
        call_ensures(FlowFile::<Take<&'r mut R>>::write_borrowed_to::<W>, (f, writer), r),
    ensures
        in_order(entries, f.attributes@),
        has_room_for((*old(writer)).budget(), head(entries, f.size as nat).len() + f.size as nat) ==> {
            &&& r == Ok::<u64, IoError>(f.size)
            &&& (*final(writer)).written() == (*old(writer)).written() + head(entries, f.size as nat) + (*old(
                f.content.inner
            )).pending().take(f.size as int)
            &&& (*final(f.content.inner)).pending() == (*old(f.content.inner)).pending().skip(f.size as int)
        },
{
    let entries = lemma_head(f.attributes@, f.size);
    let header = head(entries, f.size as nat);
    let pending = (*old(f.content.inner)).pending();
    let before = (*old(writer)).written();
    let bytes = pending.take(f.size as int);
    if pending.len() == f.size {
        assert(bytes =~= pending);
        assert(pending.skip(f.size as int) =~= Seq::empty());
    }
    assert(crate::io::take_up_to(f.content.pending(), f.size) =~= bytes);
    assert(before + (header + bytes) =~= before + header + bytes);
    entries
}

/// What is told of a stream that stops inside of a header: the failure it stops
/// in, or that it ended too early.
pub open spec fn stopped_short(e: Error, failure: Option<IoError>) -> bool {
    match failure {
        Some(io) => failed_with(e, io),
        None => e matches Error::Io(io) && io.kind == ErrorKind::UnexpectedEof,
    }
}

/// A stream that stops inside of a header is no flow file, however it is read.
#[verifier::spinoff_prover]
#[verifier::rlimit(50)]
pub proof fn law_a_stream_that_stops_inside_a_header_is_refused<R: Reader>(
    reader: R,
    whole: Seq<u8>,
    entries: Entries,
    size: u64,
    rest: Seq<u8>,
    limits: Limits,
    lazily: Result<FlowFile<Take<R>>>,
    source: &mut R,
    wholly_read: Result<FlowFile<Vec<u8>>>,
    files: &mut FlowFiles<R>,
    next: Option<Result<FlowFile<Vec<u8>>>>,
)
    requires
        stops_inside(reader.pending(), whole, entries, size, rest, limits),
        call_ensures(FlowFile::<Take<R>>::parse_with_limits, (reader, limits), lazily),
        *old(source) == reader,
        call_ensures(FlowFile::<Vec<u8>>::from_reader_with_limits::<R>, (source, limits), wholly_read),
        old(files).source() == reader,
        old(files).caps() == limits,
        !old(files).fused(),
        reader.pending().len() > 0 || reader.failure() is Some,
        call_ensures(FlowFiles::<R>::next, (files,), next),
    ensures
        lazily matches Err(e) && stopped_short(e, reader.failure()),
        wholly_read matches Err(e) && stopped_short(e, reader.failure()),
        next matches Some(Err(e)) && stopped_short(e, reader.failure()),
        final(files).fused(),
{
    lemma_cut(whole, entries, size, rest, limits, reader.pending());
}

/// A stream that starts otherwise is no flow file, however it is read.
pub proof fn law_a_stream_that_starts_otherwise_is_refused<R: Reader>(
    reader: R,
    limits: Limits,
    lazily: Result<FlowFile<Take<R>>>,
    source: &mut R,
    wholly_read: Result<FlowFile<Vec<u8>>>,
    files: &mut FlowFiles<R>,
    next: Option<Result<FlowFile<Vec<u8>>>>,
)
    requires
        reader.pending().len() >= 7,
        reader.pending().take(7) != seq![78u8, 105u8, 70u8, 105u8, 70u8, 70u8, 51u8],
        call_ensures(FlowFile::<Take<R>>::parse_with_limits, (reader, limits), lazily),
        *old(source) == reader,
        call_ensures(FlowFile::<Vec<u8>>::from_reader_with_limits::<R>, (source, limits), wholly_read),
        old(files).source() == reader,
        old(files).caps() == limits,
        !old(files).fused(),
        call_ensures(FlowFiles::<R>::next, (files,), next),
    ensures
        lazily matches Err(Error::InvalidMagic(found)) && found@ == reader.pending().take(7),
        wholly_read matches Err(Error::InvalidMagic(found)) && found@ == reader.pending().take(7),
        next matches Some(Err(Error::InvalidMagic(found))) && found@ == reader.pending().take(7),
{
}

} // verus!
