//! Flow files over HTTP: which requests are taken, what a failure is answered
//! with, and how the bytes of a body are handed on.
//!
//! Nothing here knows a web framework. Each decision takes what the framework
//! reports and answers what it is to do.

use vstd::prelude::*;
use vstd::string::*;
use vstd::utf8::*;

use crate::async_io::ReadEvent;
use crate::error::into_io;
use crate::error::{truncated, Detail, Error, IoError};
use crate::flow_file::stream_wire;
use crate::flow_file::{FlowFile, Model};
use crate::format::{encodable, header_wire};
use crate::text::{chars_of, decimal_text, find, quoted_text, range_matches, trimmed};
use crate::text::{decimal, find_from, quoted, same_but_case, trim_end, trim_start};
use crate::MEDIA_TYPE;

verus! {

/// How much of a rejected `Content-Type` is named in the rejection.
///
/// The value comes from the client, and it goes back to the client in an error
/// body, so it is bounded here: enough to tell what was sent, not however much
/// was sent.
pub const MAX_ECHOED_CONTENT_TYPE: usize = 64;

/// How much serialized output may sit between the producer and the socket
/// before writes start waiting.
pub const DEFAULT_BUFFER_SIZE: usize = 65536;

/// Where the last character ends that ends at `n` or before.
pub open spec fn boundary_at_most(bytes: Seq<u8>, n: int) -> int
    decreases n,
{
    if n <= 0 || is_char_boundary(bytes, n) {
        n
    } else {
        boundary_at_most(bytes, n - 1)
    }
}

/// The head of `value`, cut to a character boundary, with an ellipsis if
/// anything was dropped.
pub open spec fn abbreviation(value: Seq<char>) -> Seq<char> {
    let bytes = encode_utf8(value);
    if bytes.len() <= MAX_ECHOED_CONTENT_TYPE {
        value
    } else {
        decode_utf8(bytes.take(boundary_at_most(bytes, MAX_ECHOED_CONTENT_TYPE as int))) + "…"@
    }
}

/// The head of `value`, cut to a character boundary, with an ellipsis if
/// anything was dropped.
pub fn abbreviated(value: &str) -> (short: String)
    ensures
        short@ == abbreviation(value@),
{
    let ghost bytes = encode_utf8(value@);
    proof {
        encode_utf8_valid_utf8(value@);
    }
    if value.as_bytes().len() <= MAX_ECHOED_CONTENT_TYPE {
        return value.to_owned();
    }
    let mut end: usize = MAX_ECHOED_CONTENT_TYPE;
    while !value.is_char_boundary(end)
        invariant
            end <= MAX_ECHOED_CONTENT_TYPE,
            bytes == encode_utf8(value@),
            valid_utf8(bytes),
            boundary_at_most(bytes, MAX_ECHOED_CONTENT_TYPE as int) == boundary_at_most(bytes, end as int),
        decreases end,
    {
        end = end - 1;
    }
    let (head, _) = value.split_at(end);
    proof {
        encode_utf8_decode_utf8(head@);
        assert(bytes.subrange(0, end as int) =~= bytes.take(end as int));
    }
    head.to_owned().concat("…")
}

/// What a `Content-Type` names, without its parameters.
pub open spec fn media_type(value: Seq<char>) -> Seq<char> {
    let head = match find_from(value, ';', 0) {
        Some(i) => value.take(i),
        None => value,
    };
    trim_end(trim_start(head))
}

/// Reject the request unless it carries `Content-Type: application/flowfile-v3`.
///
/// Takes the header's value, if the header is there and is text. Compares the
/// media type only, ignoring any parameters. The comparison sees the whole
/// header; only what travels back to the client is abbreviated.
pub fn require_media_type(content_type: Option<&str>) -> (r: core::result::Result<(), StrictRejection>)
    ensures
        match content_type {
            Some(value) => if same_but_case(media_type(value@), MEDIA_TYPE@) {
                r is Ok
            } else {
                &&& r matches Err(StrictRejection::UnsupportedMediaType(Some(echo)))
                &&& echo@ == abbreviation(value@)
            },
            None => r matches Err(StrictRejection::UnsupportedMediaType(None)),
        },
{
    match content_type {
        None => Err(StrictRejection::UnsupportedMediaType(None)),
        Some(value) => {
            let chars = chars_of(value);
            let end: usize = match find(&chars, ';') {
                Some(i) => i,
                None => chars.len(),
            };
            assert(value@.take(value@.len() as int) =~= value@);
            let (from, to) = trimmed(&chars, end);
            let expected = chars_of(MEDIA_TYPE);
            if range_matches(&chars, from, to, &expected) {
                Ok(())
            } else {
                Err(StrictRejection::UnsupportedMediaType(Some(abbreviated(value))))
            }
        },
    }
}

/// Rejection returned by the strict extractors.
#[derive(Debug, PartialEq, Eq)]
#[non_exhaustive]
pub enum StrictRejection {
    /// The request's `Content-Type` was missing or not
    /// `application/flowfile-v3`; responds with `415 Unsupported Media Type`.
    ///
    /// The value carried here is abbreviated to the first 64 bytes, since it
    /// is reflected into the response body.
    UnsupportedMediaType(Option<String>),
    /// The body was not a valid flow file; responds as the error does.
    Parse(Error),
}

impl vstd::std_specs::convert::FromSpecImpl<Error> for StrictRejection {
    open spec fn obeys_from_spec() -> bool {
        true
    }

    open spec fn from_spec(err: Error) -> StrictRejection {
        StrictRejection::Parse(err)
    }
}

impl From<Error> for StrictRejection {
    fn from(err: Error) -> (rejection: StrictRejection) {
        StrictRejection::Parse(err)
    }
}

impl StrictRejection {
    /// What the rejection says.
    pub open spec fn text(self) -> Seq<char> {
        match self {
            StrictRejection::UnsupportedMediaType(None) =>
                "expected content type \"application/flowfile-v3\", got None"@,
            StrictRejection::UnsupportedMediaType(Some(value)) =>
                "expected content type \"application/flowfile-v3\", got Some("@ + quoted(value@) + ")"@,
            StrictRejection::Parse(err) => err.text(),
        }
    }

    /// What the rejection says. The body of the response.
    pub fn message(&self) -> (text: String)
        ensures
            text@ == self.text(),
    {
        match self {
            StrictRejection::UnsupportedMediaType(None) =>
                "expected content type \"application/flowfile-v3\", got None".to_owned(),
            StrictRejection::UnsupportedMediaType(Some(value)) =>
                "expected content type \"application/flowfile-v3\", got Some(".to_owned().concat(
                quoted_text(value.as_str()).as_str(),
            ).concat(")"),
            StrictRejection::Parse(err) => err.message(),
        }
    }

    /// The status code of the response.
    pub open spec fn status_code(self) -> u16 {
        match self {
            StrictRejection::UnsupportedMediaType(_) => 415,
            StrictRejection::Parse(err) => err.status_code(),
        }
    }

    /// The status code of the response.
    pub fn status(&self) -> (code: u16)
        ensures
            code == self.status_code(),
    {
        match self {
            StrictRejection::UnsupportedMediaType(_) => 415,
            StrictRejection::Parse(err) => err.status(),
        }
    }
}

impl Error {
    /// The input was well-formed and merely too big: it ran into one of the
    /// limits, or into the transport's own.
    pub open spec fn is_size_failure(self) -> bool {
        match self {
            Error::TooManyAttributes { .. } => true,
            Error::AttributeTooLong { .. } => true,
            Error::HeaderTooLarge { .. } => true,
            Error::ContentTooLarge { .. } => true,
            Error::Io(io) => io.detail is BodyTooLarge,
            _ => false,
        }
    }

    /// The status code of a response that reports this error.
    pub open spec fn status_code(self) -> u16 {
        if self.is_size_failure() {
            413
        } else {
            400
        }
    }

    /// The status code of a response that reports this error: `400 Bad
    /// Request`, except for the size failures, which are `413 Payload Too
    /// Large`, since the input was well-formed and merely too big.
    pub fn status(&self) -> (code: u16)
        ensures
            code == self.status_code(),
    {
        match self {
            Error::TooManyAttributes { .. } => 413,
            Error::AttributeTooLong { .. } => 413,
            Error::HeaderTooLarge { .. } => 413,
            Error::ContentTooLarge { .. } => 413,
            Error::Io(io) => match &io.detail {
                Detail::BodyTooLarge(_) => 413,
                _ => 400,
            },
            _ => 400,
        }
    }
}

/// What to do for a reader of a request body.
#[derive(Debug, PartialEq, Eq)]
pub enum BodyRead {
    /// Hand over these bytes. None at all is the end of the body.
    Give(Vec<u8>),
    /// Ask the body for its next chunk, and tell [`FlowFileBody`] what came.
    Poll,
}

/// A request body, chunk by chunk, as a reader sees it.
///
/// Remembers whether the body has ended. Asking a body for more after it said
/// it was over is not allowed, and a reader is free to keep reading past an end
/// it has already been told about: a flow file declaring more content than the
/// body carries makes that the ordinary case.
#[derive(Debug)]
pub struct FlowFileBody {
    chunk: Vec<u8>,
    taken: usize,
    ended: bool,
}

impl FlowFileBody {
    #[verifier::type_invariant]
    spec fn in_range(&self) -> bool {
        self.taken <= self.chunk@.len()
    }

    /// The bytes that arrived and were not handed over yet.
    pub closed spec fn held(&self) -> Seq<u8> {
        self.chunk@.skip(self.taken as int)
    }

    /// The body is over: it ended, or it failed.
    pub closed spec fn over(&self) -> bool {
        self.ended
    }

    /// A body of which nothing has arrived.
    pub fn new() -> (body: FlowFileBody)
        ensures
            body.held() == Seq::<u8>::empty(),
            !body.over(),
    {
        let body = FlowFileBody { chunk: Vec::new(), taken: 0, ended: false };
        assert(body.held() =~= Seq::empty());
        body
    }

    /// What to do for a reader that has room for `room` bytes.
    pub fn read(&mut self, room: usize) -> (what: BodyRead)
        ensures
            final(self).over() == old(self).over(),
            old(self).held().len() > 0 ==> {
                &&& what matches BodyRead::Give(bytes)
                &&& bytes@.len() == if room < old(self).held().len() {
                    room as nat
                } else {
                    old(self).held().len()
                }
                &&& old(self).held() == bytes@ + final(self).held()
            },
            old(self).held().len() == 0 ==> {
                &&& final(self).held() == old(self).held()
                &&& if old(self).over() {
                    what matches BodyRead::Give(bytes) && bytes@.len() == 0
                } else {
                    what is Poll
                }
            },
    {
        proof {
            use_type_invariant(&*self);
        }
        let left: usize = self.chunk.len() - self.taken;
        if left > 0 {
            let n: usize = if room < left {
                room
            } else {
                left
            };
            let bytes = vstd::slice::slice_to_vec(
                vstd::slice::slice_subrange(self.chunk.as_slice(), self.taken, self.taken + n),
            );
            self.taken = self.taken + n;
            assert(old(self).held() =~= bytes@ + self.held());
            return BodyRead::Give(bytes);
        }
        if self.ended {
            BodyRead::Give(Vec::new())
        } else {
            BodyRead::Poll
        }
    }

    /// Take what the body came to. A failure goes on to the reader, and ends
    /// the body.
    pub fn arrived(&mut self, event: ReadEvent) -> (failure: Option<IoError>)
        requires
            old(self).held().len() == 0,
            !old(self).over(),
        ensures
            match event {
                ReadEvent::Bytes(chunk) => {
                    &&& failure is None
                    &&& final(self).held() == chunk@
                    &&& !final(self).over()
                },
                ReadEvent::Failed(e) => {
                    &&& failure == Some(e)
                    &&& final(self).held() == old(self).held()
                    &&& final(self).over()
                },
                ReadEvent::End => {
                    &&& failure is None
                    &&& final(self).held() == old(self).held()
                    &&& final(self).over()
                },
            },
    {
        proof {
            use_type_invariant(&*self);
        }
        match event {
            ReadEvent::Bytes(chunk) => {
                *self = FlowFileBody { chunk, taken: 0, ended: false };
                assert(self.held() =~= self.chunk@);
                None
            },
            ReadEvent::Failed(e) => {
                self.ended = true;
                Some(e)
            },
            ReadEvent::End => {
                self.ended = true;
                None
            },
        }
    }
}

/// What came of asking for the next chunk of an outgoing body.
#[derive(Debug, Clone, Copy, PartialEq, Eq, Structural)]
pub enum ChunkEvent {
    /// A chunk of so many bytes.
    Chunk(u64),
    /// A failure.
    Failed,
    /// The end.
    End,
}

/// What to do about it.
#[derive(Debug, PartialEq, Eq)]
pub enum ChunkAnswer {
    /// Send on what came: the chunk, or the failure.
    Forward,
    /// The body is complete.
    Finish,
    /// Fail the body with this.
    Fail(IoError),
}

/// Fails the body if the wrapped reader yields fewer bytes than the response
/// committed to, rather than ending it short of its `Content-Length`.
///
/// The header is served from memory and so always arrives whole; any shortfall
/// is content, which is what the error reports.
#[derive(Debug)]
pub struct ExactLength {
    /// The content size that the header declares.
    pub declared: u64,
    /// How many bytes the response has still to deliver.
    pub remaining: u64,
    /// The body is over.
    pub done: bool,
}

/// `a - b`, or zero where that is negative.
pub open spec fn less(a: u64, b: u64) -> u64 {
    if b < a {
        (a - b) as u64
    } else {
        0
    }
}

impl ExactLength {
    /// A body of `total` bytes, of which the last `declared` are content.
    pub fn new(declared: u64, total: u64) -> (body: ExactLength)
        ensures
            body == (ExactLength { declared, remaining: total, done: false }),
    {
        ExactLength { declared, remaining: total, done: false }
    }

    /// The body after an event.
    pub open spec fn after(self, event: ChunkEvent) -> ExactLength {
        if self.done {
            self
        } else {
            match event {
                ChunkEvent::Chunk(n) => ExactLength { remaining: less(self.remaining, n), ..self },
                _ => ExactLength { done: true, ..self },
            }
        }
    }

    /// What to do about an event. Once the body is over nothing more is asked
    /// of the reader, and nothing but the end is sent.
    pub fn answer(&mut self, event: ChunkEvent) -> (answer: ChunkAnswer)
        ensures
            *final(self) == old(self).after(event),
            answer == if old(self).done {
                ChunkAnswer::Finish
            } else if event != ChunkEvent::End {
                ChunkAnswer::Forward
            } else if old(self).remaining == 0 {
                ChunkAnswer::Finish
            } else {
                ChunkAnswer::Fail(
                    into_io(
                        Error::SizeMismatch {
                            expected: old(self).declared,
                            actual: less(old(self).declared, old(self).remaining),
                        },
                    ),
                )
            },
    {
        if self.done {
            return ChunkAnswer::Finish;
        }
        match event {
            ChunkEvent::Chunk(n) => {
                self.remaining = self.remaining.saturating_sub(n);
                ChunkAnswer::Forward
            },
            ChunkEvent::Failed => {
                self.done = true;
                ChunkAnswer::Forward
            },
            ChunkEvent::End => {
                self.done = true;
                if self.remaining == 0 {
                    ChunkAnswer::Finish
                } else {
                    let delivered: u64 = self.declared.saturating_sub(self.remaining);
                    ChunkAnswer::Fail(truncated(self.declared, delivered))
                }
            },
        }
    }
}

/// What a response with one flow file starts with.
#[derive(Debug)]
pub struct ResponseHead {
    /// The `Content-Type`.
    pub content_type: String,
    /// The `Content-Length`.
    pub content_length: String,
    /// The bytes before the content.
    pub header: Vec<u8>,
    /// Watches over the bytes that follow, the header's among them.
    pub body: ExactLength,
}

impl<R> FlowFile<R> {
    /// What a response with this flow file starts with. The content follows,
    /// cut to the declared size.
    pub fn response_head(&self) -> (head: ResponseHead)
        requires
            encodable(self.attributes@),
            header_wire(self.attributes@, self.size).len() + self.size <= u64::MAX,
        ensures
            head.content_type@ == MEDIA_TYPE@,
            head.header@ == header_wire(self.attributes@, self.size),
            head.content_length@ == decimal(header_wire(self.attributes@, self.size).len() + self.size as nat),
            head.body.declared == self.size,
            head.body.remaining == header_wire(self.attributes@, self.size).len() + self.size,
            !head.body.done,
    {
        let header = self.header_bytes();
        let total: u64 = header.len() as u64 + self.size;
        ResponseHead {
            content_type: MEDIA_TYPE.to_owned(),
            content_length: decimal_text(total),
            header,
            body: ExactLength::new(self.size, total),
        }
    }
}

/// Where the parts of a response come from.
#[derive(Debug)]
pub enum Source<P> {
    /// Something that writes them, one after the other.
    Producer(P),
    /// They are here already, serialized.
    Bytes(Vec<u8>),
}

/// A response carrying *many* flow files, concatenated as NiFi expects them.
///
/// Parts are produced lazily and streamed, so neither their number nor the
/// size of any one of them is bounded by memory.
#[derive(Debug)]
pub struct FlowFilesResponse<P> {
    pub source: Source<P>,
    pub buffer_size: usize,
}

/// How to answer with many flow files.
#[derive(Debug)]
pub enum ResponsePlan<P> {
    /// Send these bytes.
    Whole { content_type: String, content_length: String, body: Vec<u8> },
    /// Run the producer with a pipe of this size, and send what comes through
    /// it. No length is known.
    Piped { content_type: String, buffer_size: usize, producer: P },
}

/// What the flow files hold.
pub open spec fn models(parts: Seq<FlowFile<Vec<u8>>>) -> Seq<Model> {
    parts.map_values(|part: FlowFile<Vec<u8>>| part@)
}

/// One more flow file at the end.
pub proof fn lemma_stream_wire_push(files: Seq<Model>, last: Model)
    ensures
        stream_wire(files.push(last)) == stream_wire(files) + last.wire(),
    decreases files.len(),
{
    if files.len() == 0 {
        assert(files.push(last).drop_first() =~= Seq::empty());
        assert(stream_wire(files.push(last).drop_first()) =~= Seq::empty());
        assert(stream_wire(files.push(last)) =~= stream_wire(files) + last.wire());
    } else {
        assert(files.push(last).drop_first() =~= files.drop_first().push(last));
        lemma_stream_wire_push(files.drop_first(), last);
        assert(stream_wire(files.push(last)) =~= stream_wire(files) + last.wire());
    }
}

impl<P> FlowFilesResponse<P> {
    /// Stream flow files from a producer, through a pipe of 64 KiB.
    pub fn new(producer: P) -> (response: FlowFilesResponse<P>)
        ensures
            response.source == Source::Producer(producer),
            response.buffer_size == DEFAULT_BUFFER_SIZE,
    {
        FlowFilesResponse { source: Source::Producer(producer), buffer_size: DEFAULT_BUFFER_SIZE }
    }

    /// Respond with flow files that are already in memory.
    ///
    /// Unlike a producer this knows the total length up front, so the response
    /// carries an exact `Content-Length`. Every part is serialized into one
    /// buffer before the response starts.
    #[must_use]
    pub fn buffered(parts: Vec<FlowFile<Vec<u8>>>) -> (response: FlowFilesResponse<P>)
        requires
            forall|i: int| 0 <= i < parts@.len() ==> (#[trigger] parts@[i])@.serializable(),
        ensures
            response.source matches Source::Bytes(bytes) && bytes@ == stream_wire(models(parts@)),
            response.buffer_size == DEFAULT_BUFFER_SIZE,
    {
        let mut bytes: Vec<u8> = Vec::new();
        let mut i: usize = 0;
        assert(models(parts@).take(0) =~= Seq::empty());
        while i < parts.len()
            invariant
                i <= parts@.len(),
                bytes@ == stream_wire(models(parts@).take(i as int)),
                forall|j: int| 0 <= j < parts@.len() ==> (#[trigger] parts@[j])@.serializable(),
            decreases parts@.len() - i,
        {
            assert(parts@[i as int]@.serializable());
            let mut part = parts[i].to_bytes();
            bytes.append(&mut part);
            proof {
                let files = models(parts@);
                lemma_stream_wire_push(files.take(i as int), files[i as int]);
                assert(files.take(i as int).push(files[i as int]) =~= files.take(i + 1));
            }
            i = i + 1;
        }
        assert(models(parts@).take(i as int) =~= models(parts@));
        FlowFilesResponse { source: Source::Bytes(bytes), buffer_size: DEFAULT_BUFFER_SIZE }
    }

    /// Set how many serialized bytes may be in flight between the producer
    /// and the socket. Defaults to 64 KiB; ignored by
    /// [`buffered`](Self::buffered).
    ///
    /// Rounded up to at least one byte: a buffer of zero can never accept a
    /// write, so the producer would wait on its first one and the response
    /// would hang rather than fail.
    #[must_use]
    pub fn buffer_size(self, bytes: usize) -> (response: FlowFilesResponse<P>)
        ensures
            response.source == self.source,
            response.buffer_size == if bytes == 0 {
                1
            } else {
                bytes
            },
    {
        FlowFilesResponse {
            source: self.source,
            buffer_size: if bytes == 0 {
                1
            } else {
                bytes
            },
        }
    }

    /// How to send the response. A response with no parts at all is a
    /// legitimate empty body.
    pub fn into_response(self) -> (plan: ResponsePlan<P>)
        ensures
            match self.source {
                Source::Bytes(bytes) => {
                    &&& plan matches ResponsePlan::Whole { content_type, content_length, body }
                    &&& content_type@ == MEDIA_TYPE@
                    &&& content_length@ == decimal(bytes@.len())
                    &&& body == bytes
                },
                Source::Producer(p) => {
                    &&& plan matches ResponsePlan::Piped { content_type, buffer_size, producer }
                    &&& content_type@ == MEDIA_TYPE@
                    &&& buffer_size == self.buffer_size
                    &&& producer == p
                },
            },
    {
        let content_type = MEDIA_TYPE.to_owned();
        match self.source {
            Source::Bytes(body) => ResponsePlan::Whole {
                content_type,
                content_length: decimal_text(body.len() as u64),
                body,
            },
            Source::Producer(producer) => ResponsePlan::Piped {
                content_type,
                buffer_size: self.buffer_size,
                producer,
            },
        }
    }
}

/// What came of asking the pipe for its next chunk, or the producer for its
/// outcome.
#[derive(Debug, Clone, Copy, PartialEq, Eq, Structural)]
pub enum PipeEvent {
    /// A chunk came through the pipe.
    Chunk,
    /// The pipe failed.
    Failed,
    /// The pipe is drained.
    Drained,
    /// The producer finished.
    Finished,
    /// The producer failed.
    Broke,
}

/// What to do about it.
#[derive(Debug, Clone, Copy, PartialEq, Eq, Structural)]
pub enum PipeAnswer {
    /// Send on what came: the chunk, or the failure.
    Forward,
    /// Wait for the producer's outcome, and come back with it.
    Await,
    /// The body is complete.
    Finish,
}

/// The response body: serialized bytes as the producer writes them, followed
/// by the producer's own outcome.
///
/// Draining the pipe is not enough to call the response complete: a producer
/// that failed after its last successful write must still fail the body, so
/// that the client sees a truncated one rather than a plausible one.
#[derive(Debug)]
pub struct ProducerStream {
    /// The producer has not been heard of, and the body is not over.
    pub running: bool,
}

impl ProducerStream {
    /// The body of a producer that has just started.
    pub fn new() -> (body: ProducerStream)
        ensures
            body.running,
    {
        ProducerStream { running: true }
    }

    /// What to do about an event. A body that is over stays over.
    pub fn answer(&mut self, event: PipeEvent) -> (answer: PipeAnswer)
        ensures
            final(self).running == (old(self).running && (event is Chunk || event is Drained)),
            answer == if !old(self).running {
                PipeAnswer::Finish
            } else {
                match event {
                    PipeEvent::Chunk => PipeAnswer::Forward,
                    PipeEvent::Failed => PipeAnswer::Forward,
                    PipeEvent::Drained => PipeAnswer::Await,
                    PipeEvent::Finished => PipeAnswer::Finish,
                    PipeEvent::Broke => PipeAnswer::Forward,
                }
            },
    {
        if !self.running {
            return PipeAnswer::Finish;
        }
        match event {
            PipeEvent::Chunk => PipeAnswer::Forward,
            PipeEvent::Drained => PipeAnswer::Await,
            PipeEvent::Failed => {
                self.running = false;
                PipeAnswer::Forward
            },
            PipeEvent::Broke => {
                self.running = false;
                PipeAnswer::Forward
            },
            PipeEvent::Finished => {
                self.running = false;
                PipeAnswer::Finish
            },
        }
    }
}

} // verus!
