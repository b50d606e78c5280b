//! Flow files over HTTP.

use vstd::prelude::*;
use vstd::utf8::*;

use crate::async_io::ReadEvent;
use crate::attributes::Entries;
use crate::error::{Detail, Error, ErrorKind, IoError};
use crate::flow_file::FlowFile;
use crate::flow_file::stream_wire;
use crate::http::{
    abbreviated, require_media_type, BodyRead, ChunkAnswer, ChunkEvent, ExactLength, FlowFileBody,
    FlowFilesResponse, PipeAnswer, PipeEvent, ProducerStream, ResponseHead, ResponsePlan, StrictRejection,
};
use crate::http::{abbreviation, boundary_at_most, models};
use crate::text::find_from;
use super::layout::{head, in_order, lemma_head, size_of_text};
use super::numbers::{in_decimal, lemma_decimal, lemma_find, lemma_same_letters, lemma_trimmed, same_letters, stripped};

verus! {

/// `short` is the start of `value`: as many whole characters as fit into 64
/// bytes.
pub open spec fn longest_start(value: Seq<char>, short: Seq<char>) -> bool {
    &&& short.len() < value.len()
    &&& short == value.take(short.len() as int)
    &&& size_of_text(short) <= 64
    &&& size_of_text(value.take(short.len() as int + 1)) > 64
}

proof fn lemma_starts(value: Seq<char>, k: int)
    requires
        0 <= k <= value.len(),
    ensures
        is_char_boundary(encode_utf8(value), size_of_text(value.take(k)) as int),
        size_of_text(value.take(k)) <= size_of_text(value),
        encode_utf8(value.take(k)) == encode_utf8(value).take(size_of_text(value.take(k)) as int),
    decreases k,
{
    encode_utf8_valid_utf8(value);
    let start = value.take(k);
    if k == 0 {
        assert(start =~= Seq::empty());
        assert(encode_utf8(start) =~= encode_utf8(value).take(0));
    } else {
        let bytes = encode_utf8(value);
        let first = encode_scalar(value[0] as u32);
        let rest = value.drop_first();
        encode_utf8_first_scalar(value);
        assert(bytes == first + encode_utf8(rest));
        assert(pop_first_scalar(bytes) =~= encode_utf8(rest));
        lemma_starts(rest, k - 1);
        assert(start.drop_first() =~= rest.take(k - 1));
        assert(start[0] == value[0]);
        let n = size_of_text(rest.take(k - 1));
        assert(encode_utf8(start) == first + encode_utf8(rest.take(k - 1)));
        assert(size_of_text(start) == first.len() + n);
        assert(encode_utf8(start) =~= bytes.take(size_of_text(start) as int));
    }
}

proof fn lemma_boundary(bytes: Seq<u8>, n: int, m: int)
    requires
        valid_utf8(bytes),
        0 <= n <= bytes.len(),
    ensures
        0 <= boundary_at_most(bytes, n) <= n,
        is_char_boundary(bytes, boundary_at_most(bytes, n)),
        is_char_boundary(bytes, m) && 0 <= m <= n ==> m <= boundary_at_most(bytes, n),
    decreases n,
{
    is_char_boundary_start_end_of_seq(bytes);
    if n > 0 && !is_char_boundary(bytes, n) {
        lemma_boundary(bytes, n - 1, m);
    }
}

/// A value is shown whole if it takes no more than 64 bytes. Of a longer one as
/// many whole characters are shown as fit into 64 bytes, and then an ellipsis.
pub proof fn law_a_long_value_is_cut_between_characters(value: &str, short: String)
    requires
        call_ensures(abbreviated, (value,), short),
    ensures
        abbreviates(value@, short@),
{
    lemma_abbreviates(value@);
}

/// `short` is what is shown of `value`.
pub open spec fn abbreviates(value: Seq<char>, short: Seq<char>) -> bool {
    &&& size_of_text(value) <= 64 ==> short == value
    &&& size_of_text(value) > 64 ==> {
        &&& short.len() > 0
        &&& longest_start(value, short.drop_last())
        &&& short.last() == '…'
    }
}

proof fn lemma_abbreviates(value: Seq<char>)
    ensures
        abbreviates(value, abbreviation(value)),
{
    let bytes = encode_utf8(value);
    encode_utf8_valid_utf8(value);
    if bytes.len() > 64 {
        let at = boundary_at_most(bytes, 64);
        lemma_boundary(bytes, 64, 0);
        let part = bytes.take(at);
        assert(part =~= bytes.subrange(0, at));
        valid_utf8_split(bytes, at);
        decode_utf8_split(bytes, at);
        encode_utf8_decode_utf8(value);
        let start = decode_utf8(part);
        decode_utf8_encode_utf8(part);
        let others = decode_utf8(bytes.subrange(at, bytes.len() as int));
        assert(value == start + others);
        assert(start =~= value.take(start.len() as int));
        assert(start.len() < value.len()) by {
            if start.len() == value.len() {
                assert(value =~= start);
            }
        }
        let more = value.take(start.len() as int + 1);
        lemma_starts(value, start.len() as int + 1);
        lemma_starts(value, start.len() as int);
        lemma_boundary(bytes, 64, size_of_text(more) as int);
        assert(more.drop_last() =~= start);
        lemma_grows(start, value[start.len() as int]);
        assert(more =~= start.push(value[start.len() as int]));
        reveal_strlit("…");
        let short = abbreviation(value);
        assert(short == start + "…"@);
        assert("…"@ =~= seq!['…']);
        assert(short.drop_last() =~= start);
    }
}

proof fn lemma_grows(start: Seq<char>, c: char)
    ensures
        size_of_text(start.push(c)) > size_of_text(start),
    decreases start.len(),
{
    let more = start.push(c);
    encode_utf8_first_scalar(more);
    if start.len() > 0 {
        assert(more.drop_first() =~= start.drop_first().push(c));
        lemma_grows(start.drop_first(), c);
    } else {
        char_is_scalar(more[0]);
        assert(encode_scalar(more[0] as u32).len() > 0);
    }
}

/// What stands before the first semicolon of `value` ends at `end`.
pub open spec fn parameters_start_at(value: Seq<char>, end: int) -> bool {
    &&& 0 <= end <= value.len()
    &&& forall|i: int| 0 <= i < end ==> #[trigger] value[i] != ';'
    &&& end < value.len() ==> value[end] == ';'
}

/// `value` names the media type of flow files: before its parameters, and
/// without the white space around it, it is that type in any case.
pub open spec fn names_a_flow_file(value: Seq<char>) -> bool {
    exists|end: int, from: int, to: int| #[trigger]
        parameters_start_at(value, end) && #[trigger] stripped(value, from, to, end) && same_letters(
            value.subrange(from, to),
            "application/flowfile-v3"@,
        )
}

proof fn lemma_one_end(value: Seq<char>, a: int, b: int)
    requires
        parameters_start_at(value, a),
        parameters_start_at(value, b),
    ensures
        a == b,
{
    if a < b {
        assert(value[a] != ';');
    } else if b < a {
        assert(value[b] != ';');
    }
}

proof fn lemma_one_strip(s: Seq<char>, from: int, to: int, from1: int, to1: int, end: int)
    requires
        stripped(s, from, to, end),
        stripped(s, from1, to1, end),
        from1 < to1,
    ensures
        from == from1,
        to == to1,
{
    assert(!super::numbers::blank(s[from1]) && !super::numbers::blank(s[to1 - 1]));
    if from == to {
        if from1 < from {
            assert(super::numbers::blank(s[from1]));
        } else {
            assert(super::numbers::blank(s[from1]));
        }
    } else {
        assert(!super::numbers::blank(s[from]) && !super::numbers::blank(s[to - 1]));
    }
}

/// A request is let through exactly if its content type names flow files. If it
/// names something else the answer shows what, cut to 64 bytes, and if there is
/// none the answer shows none.
pub proof fn law_only_flow_files_are_let_through(content_type: Option<&str>, r: core::result::Result<(), StrictRejection>)
    requires
        call_ensures(require_media_type, (content_type,), r),
    ensures
        match content_type {
            None => r matches Err(StrictRejection::UnsupportedMediaType(None)),
            Some(value) => {
                &&& r is Ok <==> names_a_flow_file(value@)
                &&& !names_a_flow_file(value@) ==> {
                    &&& r matches Err(StrictRejection::UnsupportedMediaType(Some(shown)))
                    &&& abbreviates(value@, shown@)
                }
            },
        },
{
    if let Some(text) = content_type {
        let value = text@;
        lemma_abbreviates(value);
        lemma_find(value, ';', 0);
        let end = match find_from(value, ';', 0) {
            Some(i) => i,
            None => value.len() as int,
        };
        let front = value.take(end);
        assert(end == value.len() ==> front =~= value);
        let (from, to) = lemma_trimmed(front);
        assert(front.subrange(from, to) =~= value.subrange(from, to));
        assert(parameters_start_at(value, end));
        assert(stripped(value, from, to, end)) by {
            assert forall|i: int| 0 <= i < from implies super::numbers::blank(#[trigger] value[i]) by {
                assert(front[i] == value[i]);
            }
            assert forall|i: int| to <= i < end implies super::numbers::blank(#[trigger] value[i]) by {
                assert(front[i] == value[i]);
            }
        }
        lemma_same_letters(value.subrange(from, to), "application/flowfile-v3"@);
        reveal_strlit("application/flowfile-v3");
        if names_a_flow_file(value) {
            let (end1, from1, to1) = choose|end1: int, from1: int, to1: int| #[trigger]
                parameters_start_at(value, end1) && #[trigger] stripped(value, from1, to1, end1) && same_letters(
                    value.subrange(from1, to1),
                    "application/flowfile-v3"@,
                );
            lemma_one_end(value, end, end1);
            assert(value.subrange(from1, to1).len() == "application/flowfile-v3"@.len());
            lemma_one_strip(value, from, to, from1, to1, end);
        }
    }
}

/// A request that is too large is answered 413, and any other error in it 400.
pub proof fn law_what_is_too_large_is_answered_so(err: &Error, code: u16)
    requires
        call_ensures(Error::status, (err,), code),
    ensures
        match *err {
            Error::TooManyAttributes { .. } | Error::AttributeTooLong { .. } | Error::HeaderTooLarge { .. }
                | Error::ContentTooLarge { .. } => code == 413,
            Error::Io(io) => match io.detail {
                Detail::BodyTooLarge(_) => code == 413,
                _ => code == 400,
            },
            _ => code == 400,
        },
{
}

/// A rejection is answered 415 for its media type, and otherwise as its error.
pub proof fn law_a_rejection_is_answered_as_its_error(rejection: &StrictRejection, code: u16, err: Error, of_err: u16, made: StrictRejection)
    requires
        call_ensures(StrictRejection::status, (rejection,), code),
        call_ensures(Error::status, (&err,), of_err),
        call_ensures(<StrictRejection as From<Error>>::from, (err,), made),
    ensures
        *rejection is UnsupportedMediaType ==> code == 415,
        *rejection == StrictRejection::Parse(err) ==> code == of_err,
        made == StrictRejection::Parse(err),
{
}

/// Reading a body hands over what is held, in order and no more than there is
/// room for. With nothing held the next chunk is asked for, until the end.
pub proof fn law_a_body_is_handed_over_in_order(body: &mut FlowFileBody, room: usize, what: BodyRead)
    requires
        call_ensures(FlowFileBody::read, (body, room), what),
    ensures
        final(body).over() == old(body).over(),
        old(body).held().len() > 0 ==> {
            &&& what matches BodyRead::Give(bytes)
            &&& bytes@.len() <= room
            &&& bytes@ == old(body).held().take(bytes@.len() as int)
            &&& final(body).held() == old(body).held().skip(bytes@.len() as int)
            &&& bytes@.len() < room ==> final(body).held().len() == 0
        },
        old(body).held().len() == 0 && !old(body).over() ==> what is Poll && final(body).held().len() == 0,
        old(body).held().len() == 0 && old(body).over() ==> (what matches BodyRead::Give(bytes) && bytes@.len() == 0),
{
    if let BodyRead::Give(bytes) = what {
        if old(body).held().len() > 0 {
            assert(bytes@ =~= old(body).held().take(bytes@.len() as int));
            assert(final(body).held() =~= old(body).held().skip(bytes@.len() as int));
        }
    }
}

/// What arrives for a body is held, and an end or a failure ends it. Only a
/// failure is told.
pub proof fn law_what_arrives_is_held(body: &mut FlowFileBody, event: ReadEvent, failure: Option<IoError>, fresh: FlowFileBody)
    requires
        old(body).held().len() == 0,
        call_ensures(FlowFileBody::new, (), fresh),
        call_ensures(FlowFileBody::arrived, (body, event), failure),
    ensures
        fresh.held().len() == 0 && !fresh.over(),
        match event {
            ReadEvent::Bytes(chunk) => failure is None && final(body).held() == chunk@ && !final(body).over(),
            ReadEvent::End => failure is None && final(body).held().len() == 0 && final(body).over(),
            ReadEvent::Failed(e) => failure == Some(e) && final(body).held().len() == 0 && final(body).over(),
        },
{
}

/// A response counts down what it sends. Ending before all was sent is a
/// mismatch of the declared content and what came of it, and after the end
/// nothing more comes.
pub proof fn law_a_response_ends_where_it_declared_to(body: &mut ExactLength, event: ChunkEvent, answer: ChunkAnswer)
    requires
        call_ensures(ExactLength::answer, (body, event), answer),
    ensures
        final(body).declared == old(body).declared,
        old(body).done ==> answer is Finish && *final(body) == *old(body),
        !old(body).done ==> match event {
            ChunkEvent::Chunk(n) => {
                &&& answer is Forward
                &&& !final(body).done
                &&& n <= old(body).remaining ==> final(body).remaining == old(body).remaining - n
                &&& n > old(body).remaining ==> final(body).remaining == 0
            },
            ChunkEvent::Failed => answer is Forward && final(body).done && final(body).remaining == old(body).remaining,
            ChunkEvent::End => {
                &&& final(body).done
                &&& final(body).remaining == old(body).remaining
                &&& old(body).remaining == 0 ==> answer is Finish
                &&& old(body).remaining > 0 ==> {
                    &&& answer matches ChunkAnswer::Fail(e)
                    &&& e.kind == ErrorKind::UnexpectedEof
                    &&& e.detail matches Detail::Carried(inner)
                    &&& *inner matches Error::SizeMismatch { expected, actual }
                    &&& expected == old(body).declared
                    &&& old(body).remaining <= expected ==> actual == expected - old(body).remaining
                    &&& old(body).remaining > expected ==> actual == 0
                }
            },
        },
{
}

/// A watch over a response starts with all of it still to come.
pub proof fn law_a_response_starts_with_all_to_come(declared: u64, total: u64, body: ExactLength)
    requires
        call_ensures(ExactLength::new, (declared, total), body),
    ensures
        body.declared == declared,
        body.remaining == total,
        !body.done,
{
}

/// A flow file is answered with its header, its media type, and a length that
/// is the header and the content together.
pub proof fn law_a_response_says_how_long_it_is(f: &FlowFile<Vec<u8>>, answer: ResponseHead) -> (entries: Entries)
    requires
        f.attributes@.dom().finite(),
        call_ensures(FlowFile::<Vec<u8>>::response_head, (f,), answer),
    ensures
        in_order(entries, f.attributes@),
        answer.header@ == head(entries, f.size as nat),
        answer.content_type@ == "application/flowfile-v3"@,
        in_decimal(answer.content_length@, answer.header@.len() + f.size as nat),
        answer.body.remaining == answer.header@.len() + f.size,
        answer.body.declared == f.size,
        !answer.body.done,
{
    let entries = lemma_head(f.attributes@, f.size);
    lemma_decimal(answer.header@.len() + f.size as nat);
    entries
}

/// The serialized flow files stand one after the other in these bytes.
pub open spec fn one_after_the_other(parts: Seq<FlowFile<Vec<u8>>>, bytes: Seq<u8>) -> bool
    decreases parts.len(),
{
    if parts.len() == 0 {
        bytes.len() == 0
    } else {
        exists|entries: Entries| #[trigger]
            in_order(entries, parts[0].attributes@) && (head(entries, parts[0].size as nat) + parts[0].content@).is_prefix_of(bytes)
                && one_after_the_other(
                parts.drop_first(),
                bytes.skip((head(entries, parts[0].size as nat) + parts[0].content@).len() as int),
            )
    }
}

proof fn lemma_one_after_the_other(parts: Seq<FlowFile<Vec<u8>>>)
    requires
        forall|i: int| 0 <= i < parts.len() ==> (#[trigger] parts[i]).attributes@.dom().finite(),
    ensures
        one_after_the_other(parts, stream_wire(models(parts))),
    decreases parts.len(),
{
    if parts.len() > 0 {
        let f = parts[0];
        let others = parts.drop_first();
        let bytes = stream_wire(models(parts));
        assert(models(parts).drop_first() =~= models(others));
        assert(models(parts)[0] == f@);
        assert forall|i: int| 0 <= i < others.len() implies (#[trigger] others[i]).attributes@.dom().finite() by {
            assert(others[i] == parts[i + 1]);
        }
        lemma_one_after_the_other(others);
        let entries = lemma_head(f.attributes@, f.size);
        let wire = head(entries, f.size as nat) + f.content@;
        assert(bytes == wire + stream_wire(models(others)));
        assert(wire =~= bytes.take(wire.len() as int));
        assert(bytes.skip(wire.len() as int) =~= stream_wire(models(others)));
        assert(in_order(entries, parts[0].attributes@));
    }
}

/// Flow files that are there already are sent one after the other, with their
/// length. What a producer writes is piped, with a buffer that holds at least
/// one byte, and 65536 unless it was set.
pub proof fn law_a_response_of_flow_files<P>(
    parts: Vec<FlowFile<Vec<u8>>>,
    whole: FlowFilesResponse<P>,
    whole_plan: ResponsePlan<P>,
    producer: P,
    piped: FlowFilesResponse<P>,
    n: usize,
    sized: FlowFilesResponse<P>,
    piped_plan: ResponsePlan<P>,
)
    requires
        forall|i: int| 0 <= i < parts@.len() ==> (#[trigger] parts@[i]).attributes@.dom().finite(),
        call_ensures(FlowFilesResponse::<P>::buffered, (parts,), whole),
        call_ensures(FlowFilesResponse::<P>::into_response, (whole,), whole_plan),
        call_ensures(FlowFilesResponse::<P>::new, (producer,), piped),
        call_ensures(FlowFilesResponse::<P>::buffer_size, (piped, n), sized),
        call_ensures(FlowFilesResponse::<P>::into_response, (sized,), piped_plan),
    ensures
        whole_plan matches ResponsePlan::Whole { content_type, content_length, body } && content_type@ == "application/flowfile-v3"@
            && in_decimal(content_length@, body@.len()) && one_after_the_other(parts@, body@),
        piped.buffer_size == 65536,
        n > 0 ==> sized.buffer_size == n,
        n == 0 ==> sized.buffer_size == 1,
        piped_plan matches ResponsePlan::Piped { content_type, buffer_size, producer: p } && content_type@
            == "application/flowfile-v3"@ && buffer_size == sized.buffer_size && p == producer,
{
    lemma_one_after_the_other(parts@);
    lemma_decimal(stream_wire(models(parts@)).len());
}

/// What comes through a pipe is sent on. When it is drained the producer is
/// waited for: if it failed that is sent on, and if it finished the body is
/// complete. After a failure or the end nothing more comes.
pub proof fn law_a_pipe_ends_with_its_producer(body: &mut ProducerStream, event: PipeEvent, answer: PipeAnswer, fresh: ProducerStream)
    requires
        call_ensures(ProducerStream::new, (), fresh),
        call_ensures(ProducerStream::answer, (body, event), answer),
    ensures
        fresh.running,
        !old(body).running ==> answer is Finish && !final(body).running,
        old(body).running ==> match event {
            PipeEvent::Chunk => answer is Forward && final(body).running,
            PipeEvent::Drained => answer is Await && final(body).running,
            PipeEvent::Failed => answer is Forward && !final(body).running,
            PipeEvent::Broke => answer is Forward && !final(body).running,
            PipeEvent::Finished => answer is Finish && !final(body).running,
        },
{
}

/// A rejection says what was expected and what came, and otherwise what its
/// error says.
pub proof fn law_a_rejection_says_what_came(rejection: &StrictRejection, text: String, err: &Error, words: String)
    requires
        call_ensures(StrictRejection::message, (rejection,), text),
        call_ensures(Error::message, (err,), words),
    ensures
        match *rejection {
            StrictRejection::UnsupportedMediaType(None) => text@
                == "expected content type \"application/flowfile-v3\", got None"@,
            StrictRejection::UnsupportedMediaType(Some(value)) => text@
                == "expected content type \"application/flowfile-v3\", got Some("@ + crate::text::quoted(value@) + ")"@,
            StrictRejection::Parse(e) => e == *err ==> text@ == words@,
        },
{
}

} // verus!
