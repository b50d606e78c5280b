//! Parsing and serialization over asynchronous readers and writers: what to
//! do next, given what came back.
//!
//! Nothing here waits. Each type is told what a read or a write came to and
//! answers what is to be done next, so that any runtime can drive it.

use vstd::prelude::*;

use crate::attributes::Attributes;
use crate::decode::HeaderDecoder;
use crate::decode::{decode_header, lands, reports, text_cut, Outcome, Refusal};
use crate::error::{from_io, into_io};
use crate::error::Detail;
use crate::error::{poisoned, truncated, Error, ErrorKind, IoError, Result};
use crate::flow_file::FlowFile;
use crate::flow_file::Model;
use crate::io::CHUNK;
use crate::limits::no_limits;
use crate::limits::Limits;
use crate::sync::read_outcome;

verus! {

/// What a read came to.
#[derive(Debug)]
pub enum ReadEvent {
    /// These bytes, at least one.
    Bytes(Vec<u8>),
    /// The end.
    End,
    /// A failure.
    Failed(IoError),
}

/// What to do about a header.
#[derive(Debug)]
pub enum HeaderStep {
    /// Read up to [`limit`](PendingHeader::limit) bytes, and come back with
    /// what that came to.
    Read(PendingHeader),
    /// The stream ended before the header began.
    Nothing,
    /// This is the header: the attributes and the declared content size.
    Header(Attributes, u64),
    /// There is no header here.
    Failed(Error),
}

/// The message of an end inside a header, but not inside a key or value.
pub open spec fn early_end() -> Seq<char> {
    "early eof"@
}

/// `e` reports that the stream ended inside a header.
pub open spec fn cut_short(e: Error, inside_text: bool) -> bool {
    &&& e matches Error::Io(io)
    &&& io.kind == ErrorKind::UnexpectedEof
    &&& io.detail matches Detail::Message(text)
    &&& text@ == (if inside_text {
        text_cut()
    } else {
        early_end()
    })
}

/// What some bytes bring a header to.
pub open spec fn brings(header: PendingHeader, bytes: Seq<u8>, step: HeaderStep) -> bool {
    match step {
        HeaderStep::Read(next) => forall|rest: Seq<u8>| #[trigger] next.outcome(rest) == header.outcome(bytes + rest),
        HeaderStep::Header(attributes, size) => forall|rest: Seq<u8>| #[trigger]
            header.outcome(bytes + rest) == (Outcome::Accepted { attributes: attributes@, size, rest }),
        HeaderStep::Failed(_) => forall|rest: Seq<u8>| #[trigger] header.outcome(bytes + rest) is Refused,
        HeaderStep::Nothing => false,
    }
}

/// A header that is being read from a stream.
#[derive(Debug)]
pub struct PendingHeader {
    decoder: HeaderDecoder,
    begun: bool,
    optional: bool,
}

impl PendingHeader {
    #[verifier::type_invariant]
    spec fn waiting(&self) -> bool {
        self.decoder.missing() > 0
    }

    /// What becomes of the header if `rest` are the bytes still to come.
    pub closed spec fn outcome(&self, rest: Seq<u8>) -> Outcome {
        self.decoder.outcome(rest)
    }

    /// How many bytes can be taken at once.
    pub closed spec fn room(&self) -> nat {
        if self.begun {
            self.decoder.missing()
        } else {
            1
        }
    }

    /// An end here is the end of the stream, and no error.
    pub closed spec fn may_end(&self) -> bool {
        self.optional && !self.begun
    }

    /// Read a header that has to be there.
    pub fn required(limits: Limits) -> (header: PendingHeader)
        ensures
            forall|bytes: Seq<u8>| #[trigger] header.outcome(bytes) == decode_header(bytes, limits),
            !header.may_end(),
            header.room() >= 1,
    {
        PendingHeader { decoder: HeaderDecoder::new(limits), begun: true, optional: false }
    }

    /// Read the next header of a stream, if there is one.
    pub fn next(limits: Limits) -> (header: PendingHeader)
        ensures
            forall|bytes: Seq<u8>| #[trigger] header.outcome(bytes) == decode_header(bytes, limits),
            header.may_end(),
            header.room() >= 1,
    {
        PendingHeader { decoder: HeaderDecoder::new(limits), begun: false, optional: true }
    }

    /// How many bytes to read at most. Never more than the header needs, so
    /// that nothing after it is taken.
    pub fn limit(&self) -> (n: usize)
        ensures
            1 <= n <= self.room(),
            n <= CHUNK,
            n == if self.room() < CHUNK {
                self.room()
            } else {
                CHUNK as nat
            },
    {
        proof {
            use_type_invariant(self);
        }
        if !self.begun {
            return 1;
        }
        let wanted: usize = self.decoder.wanted();
        if wanted < CHUNK {
            wanted
        } else {
            CHUNK
        }
    }

    /// Go on after a read.
    pub fn step(self, event: ReadEvent) -> (step: HeaderStep)
        requires
            event matches ReadEvent::Bytes(bytes) ==> 1 <= bytes@.len() <= self.room(),
        ensures
            event matches ReadEvent::Bytes(bytes) ==> brings(self, bytes@, step),
            match event {
                ReadEvent::Bytes(bytes) => match step {
                    HeaderStep::Read(next) => {
                        &&& forall|rest: Seq<u8>| #[trigger] next.outcome(rest) == self.outcome(bytes@ + rest)
                        &&& !next.may_end()
                    },
                    HeaderStep::Header(attributes, size) => forall|rest: Seq<u8>| #[trigger]
                        self.outcome(bytes@ + rest) == (Outcome::Accepted { attributes: attributes@, size, rest }),
                    HeaderStep::Failed(e) => forall|rest: Seq<u8>|
                        {
                            &&& #[trigger] self.outcome(bytes@ + rest) matches Outcome::Refused { why, rest: unread }
                            &&& unread == rest
                            &&& reports(e, why)
                        },
                    HeaderStep::Nothing => false,
                },
                ReadEvent::End => if self.may_end() {
                    step is Nothing
                } else {
                    &&& step matches HeaderStep::Failed(e)
                    &&& self.outcome(Seq::empty()) matches Outcome::Refused { why, rest }
                    &&& why matches Refusal::Truncated { inside_text }
                    &&& cut_short(e, inside_text)
                },
                ReadEvent::Failed(io) => if io.kind == ErrorKind::Interrupted {
                    step == HeaderStep::Read(self)
                } else {
                    step == HeaderStep::Failed(from_io(io))
                },
            },
    {
        proof {
            use_type_invariant(&self);
        }
        match event {
            ReadEvent::Bytes(bytes) => {
                let ghost start = self.decoder;
                let PendingHeader { decoder, begun, optional } = self;
                assert(bytes@.len() <= decoder.missing());
                match decoder.feed(bytes.as_slice()) {
                    Ok(next) => {
                        let fed: Ghost<Result<HeaderDecoder>> = Ghost(Ok(next));
                        assert forall|rest: Seq<u8>| next.outcome(rest) == start.outcome(bytes@ + rest) by {
                            assert(lands(fed@, rest, start.outcome(bytes@ + rest)));
                        }
                        if next.is_done() {
                            let ghost last = next;
                            let (attributes, size) = next.finish();
                            assert forall|rest: Seq<u8>| #[trigger]
                                start.outcome(bytes@ + rest) == (Outcome::Accepted {
                                    attributes: attributes@,
                                    size,
                                    rest,
                                }) by {
                                assert(last.outcome(rest) == start.outcome(bytes@ + rest));
                            }
                            HeaderStep::Header(attributes, size)
                        } else {
                            HeaderStep::Read(PendingHeader { decoder: next, begun: true, optional })
                        }
                    },
                    Err(e) => {
                        let fed: Ghost<Result<HeaderDecoder>> = Ghost(Err(e));
                        assert forall|rest: Seq<u8>| {
                            &&& #[trigger] start.outcome(bytes@ + rest) matches Outcome::Refused { why, rest: unread }
                            &&& unread == rest
                            &&& reports(e, why)
                        } by {
                            assert(lands(fed@, rest, start.outcome(bytes@ + rest)));
                        }
                        HeaderStep::Failed(e)
                    },
                }
            },
            ReadEvent::End => {
                if self.optional && !self.begun {
                    HeaderStep::Nothing
                } else if self.decoder.is_in_text() {
                    HeaderStep::Failed(Error::Io(IoError::new(ErrorKind::UnexpectedEof, "attribute truncated")))
                } else {
                    HeaderStep::Failed(Error::Io(IoError::new(ErrorKind::UnexpectedEof, "early eof")))
                }
            },
            ReadEvent::Failed(io) => {
                if io.kind == ErrorKind::Interrupted {
                    HeaderStep::Read(self)
                } else {
                    HeaderStep::Failed(Error::from(io))
                }
            },
        }
    }
}

/// What to do about a content.
#[derive(Debug)]
pub enum ContentStep {
    /// Read up to [`limit`](PendingContent::limit) bytes, and come back with
    /// what that came to.
    Read(PendingContent),
    /// Hand these bytes on, and read on if there are more to come.
    Give(Vec<u8>, PendingContent),
    /// The content is over: this is how many bytes it had, or that they were
    /// too few.
    End(core::result::Result<u64, IoError>),
    /// The content could not be read.
    Failed(IoError),
}

/// A content of a declared size that is being read.
#[derive(Debug)]
pub struct PendingContent {
    size: u64,
    seen: u64,
}

impl PendingContent {
    #[verifier::type_invariant]
    spec fn within(&self) -> bool {
        self.seen <= self.size
    }

    /// The declared size.
    pub closed spec fn declared(&self) -> u64 {
        self.size
    }

    /// How many bytes have been read.
    pub closed spec fn read(&self) -> u64 {
        self.seen
    }

    /// Read a content of `size` bytes.
    pub fn new(size: u64) -> (content: PendingContent)
        ensures
            content.declared() == size,
            content.read() == 0,
    {
        PendingContent { size, seen: 0 }
    }

    /// How many bytes to read at most. None, when all have been read.
    pub fn limit(&self) -> (n: usize)
        ensures
            n <= CHUNK,
            n <= self.declared() - self.read(),
            n == 0 <==> self.read() == self.declared(),
            n == if self.declared() - self.read() < CHUNK {
                self.declared() - self.read()
            } else {
                CHUNK as int
            },
    {
        proof {
            use_type_invariant(self);
        }
        let left: u64 = self.size - self.seen;
        if left < CHUNK as u64 {
            left as usize
        } else {
            CHUNK
        }
    }

    /// `n` more bytes have been read.
    pub fn advance(self, n: usize) -> (content: PendingContent)
        requires
            n <= self.declared() - self.read(),
        ensures
            content.declared() == self.declared(),
            content.read() == self.read() + n,
    {
        PendingContent { size: self.size, seen: self.seen + n as u64 }
    }

    /// Go on after a read. One that was interrupted is tried again.
    pub fn step(self, event: ReadEvent) -> (step: ContentStep)
        requires
            event matches ReadEvent::Bytes(bytes) ==> 1 <= bytes@.len() <= self.declared() - self.read(),
        ensures
            match event {
                ReadEvent::Bytes(bytes) => {
                    &&& step matches ContentStep::Give(given, next)
                    &&& given == bytes
                    &&& next.declared() == self.declared()
                    &&& next.read() == self.read() + bytes@.len()
                },
                ReadEvent::End => step == ContentStep::End(self.conclusion()),
                ReadEvent::Failed(e) => if e.kind == ErrorKind::Interrupted {
                    step == ContentStep::Read(self)
                } else {
                    step == ContentStep::Failed(e)
                },
            },
    {
        match event {
            ReadEvent::Bytes(bytes) => {
                let n: usize = bytes.len();
                ContentStep::Give(bytes, self.advance(n))
            },
            ReadEvent::End => ContentStep::End(self.end()),
            ReadEvent::Failed(e) => if e.kind == ErrorKind::Interrupted {
                ContentStep::Read(self)
            } else {
                ContentStep::Failed(e)
            },
        }
    }

    /// What the content comes to if nothing more is coming.
    pub open spec fn conclusion(&self) -> core::result::Result<u64, IoError> {
        if self.read() == self.declared() {
            Ok(self.declared())
        } else {
            Err(into_io(Error::SizeMismatch { expected: self.declared(), actual: self.read() }))
        }
    }

    /// Nothing more is coming: say how many bytes there were, or that they
    /// were too few.
    pub fn end(self) -> (r: core::result::Result<u64, IoError>)
        ensures
            r == self.conclusion(),
    {
        if self.seen != self.size {
            return Err(truncated(self.size, self.seen));
        }
        Ok(self.seen)
    }
}

/// Make a flow file of its header and the bytes that were read as its
/// content.
///
/// # Errors
///
/// Fewer bytes than the header declares are an unexpected end carrying an
/// [`Error::SizeMismatch`].
pub fn with_content(attributes: Attributes, size: u64, content: Vec<u8>) -> (r: core::result::Result<
    FlowFile<Vec<u8>>,
    IoError,
>)
    requires
        content@.len() <= size,
    ensures
        match read_outcome(content@, None, size) {
            Ok(bytes) => r matches Ok(f) && f@ == (Model { size, attributes: attributes@, content: bytes }),
            Err(e) => r == Err::<FlowFile<Vec<u8>>, IoError>(e),
        },
{
    let read: u64 = content.len() as u64;
    if read != size {
        return Err(truncated(size, read));
    }
    assert(content@.take(size as int) =~= content@);
    Ok(FlowFile { size, attributes, content })
}

/// A stream of concatenated flow files that is read asynchronously.
///
/// Yields each flow file with its content buffered in memory, and ends on a
/// clean end of input. After an error it is fused, since the stream position
/// is no longer trustworthy.
#[derive(Debug)]
pub struct FlowFilesAsync<R> {
    reader: R,
    limits: Limits,
    done: bool,
}

impl<R> FlowFilesAsync<R> {
    /// The underlying reader.
    pub closed spec fn source(&self) -> R {
        self.reader
    }

    /// The limits on each header.
    pub closed spec fn caps(&self) -> Limits {
        self.limits
    }

    /// Whether there is nothing more to come.
    pub closed spec fn fused(&self) -> bool {
        self.done
    }

    /// Read the flow files in `reader`, without header limits.
    pub fn new(reader: R) -> (flow_files: FlowFilesAsync<R>)
        ensures
            flow_files.source() == reader,
            flow_files.caps() == no_limits(),
            !flow_files.fused(),
    {
        Self::with_limits(reader, Limits::unlimited())
    }

    /// Like [`new`](Self::new), but enforcing [`Limits`] on each header.
    /// Use this for untrusted input.
    pub fn with_limits(reader: R, limits: Limits) -> (flow_files: FlowFilesAsync<R>)
        ensures
            flow_files.source() == reader,
            flow_files.caps() == limits,
            !flow_files.fused(),
    {
        FlowFilesAsync { reader, limits, done: false }
    }

    /// Start on the next flow file: the header to read, or nothing after the
    /// end and after an error.
    pub fn begin(&self) -> (header: Option<PendingHeader>)
        ensures
            match header {
                Some(pending) => {
                    &&& !self.fused()
                    &&& pending.may_end()
                    &&& pending.room() >= 1
                    &&& forall|bytes: Seq<u8>| #[trigger]
                        pending.outcome(bytes) == decode_header(bytes, self.caps())
                },
                None => self.fused(),
            },
    {
        if self.done {
            return None;
        }
        Some(PendingHeader::next(self.limits))
    }

    /// Pass on what reading a flow file came to. Anything but a flow file is
    /// the last thing there is.
    pub fn settle(&mut self, result: Option<Result<FlowFile<Vec<u8>>>>) -> (r: Option<Result<FlowFile<Vec<u8>>>>)
        ensures
            r == result,
            final(self).source() == old(self).source(),
            final(self).caps() == old(self).caps(),
            final(self).fused() == (old(self).fused() || !(result matches Some(Ok(_)))),
    {
        match &result {
            Some(Ok(_)) => {},
            _ => {
                self.done = true;
            },
        }
        result
    }

    /// A mutable reference to the underlying reader.
    pub fn get_mut(&mut self) -> (reader: &mut R)
        ensures
            *reader == old(self).source(),
            final(self).source() == *final(reader),
            final(self).caps() == old(self).caps(),
            final(self).fused() == old(self).fused(),
    {
        &mut self.reader
    }

    /// Give the underlying reader back.
    pub fn into_inner(self) -> (reader: R)
        ensures
            reader == self.source(),
    {
        self.reader
    }
}

/// Writes a stream of concatenated flow files asynchronously.
///
/// A failed write leaves a partial flow file in the stream, so the writer
/// refuses every write after one. See [`is_poisoned`](Self::is_poisoned).
#[derive(Debug)]
pub struct FlowFilesWriterAsync<W> {
    writer: W,
    count: u64,
    poisoned: bool,
}

impl<W> FlowFilesWriterAsync<W> {
    /// The underlying writer.
    pub closed spec fn sink(&self) -> W {
        self.writer
    }

    /// How many flow files are complete.
    pub closed spec fn complete(&self) -> u64 {
        self.count
    }

    /// Whether the stream is mid-flow-file.
    pub closed spec fn broken(&self) -> bool {
        self.poisoned
    }

    /// Write flow files to `writer`.
    pub fn new(writer: W) -> (w: FlowFilesWriterAsync<W>)
        ensures
            w.sink() == writer,
            w.complete() == 0,
            !w.broken(),
    {
        FlowFilesWriterAsync { writer, count: 0, poisoned: false }
    }

    /// Whether writing is still possible. Ask before each flow file: once this
    /// fails, the writer is not to be touched.
    pub fn guard(&self) -> (r: core::result::Result<(), IoError>)
        ensures
            match r {
                Ok(_) => !self.broken(),
                Err(e) => self.broken() && e == into_io(Error::WriterPoisoned),
            },
    {
        if self.poisoned {
            return Err(poisoned());
        }
        Ok(())
    }

    /// Pass on what a write came to, refusing every later one if it failed.
    pub fn poison_on_err<T>(&mut self, result: core::result::Result<T, IoError>) -> (r: core::result::Result<T, IoError>)
        ensures
            r == result,
            final(self).sink() == old(self).sink(),
            final(self).complete() == old(self).complete(),
            final(self).broken() == (old(self).broken() || result is Err),
    {
        if result.is_err() {
            self.poisoned = true;
        }
        result
    }

    /// Pass on what writing a whole flow file came to: one more is complete,
    /// or the stream is broken.
    pub fn settle(&mut self, result: core::result::Result<u64, IoError>) -> (r: core::result::Result<u64, IoError>)
        requires
            old(self).complete() < u64::MAX,
        ensures
            r == result,
            final(self).sink() == old(self).sink(),
            final(self).broken() == (old(self).broken() || result is Err),
            final(self).complete() == old(self).complete() + (if result is Ok {
                1int
            } else {
                0int
            }),
    {
        match self.poison_on_err(result) {
            Ok(copied) => {
                self.count = self.count + 1;
                Ok(copied)
            },
            Err(e) => Err(e),
        }
    }

    /// Whether a write has failed, leaving the stream mid-flow-file.
    pub fn is_poisoned(&self) -> (yes: bool)
        ensures
            yes == self.broken(),
    {
        self.poisoned
    }

    /// The number of flow files written so far, counting only the complete
    /// ones.
    pub fn count(&self) -> (n: u64)
        ensures
            n == self.complete(),
    {
        self.count
    }

    /// A mutable reference to the underlying writer.
    pub fn get_mut(&mut self) -> (writer: &mut W)
        ensures
            *writer == old(self).sink(),
            final(self).sink() == *final(writer),
            final(self).complete() == old(self).complete(),
            final(self).broken() == old(self).broken(),
    {
        &mut self.writer
    }

    /// Consume the writer, returning the underlying one without flushing it.
    pub fn into_inner(self) -> (writer: W)
        ensures
            writer == self.sink(),
    {
        self.writer
    }
}

} // verus!
