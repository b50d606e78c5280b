//! Streams of flow files, each of which lends out the stream while its content
//! is read.
//!
//! What drives a stream asks it what to do, does that, and tells it what came
//! of it. The stream itself holds no reader and waits for nothing.

use vstd::prelude::*;

use crate::async_io::ReadEvent;
use crate::attributes::Attributes;
use crate::error::{ErrorKind, IoError};
use crate::flowfiles::error::FlowFileParsingError;
use crate::flowfiles::header::FlowFileHeader;
use crate::io::Take;
use crate::text::whole_number;
use crate::text::{order, parse_number, Order};
use crate::MEDIA_TYPE;

verus! {

/// A NiFi Flow File v3 with a streamed body.
///
/// The attributes from the flow file are available directly in memory,
/// while the body is streamed. This type represents a "lock" on the underlying byte stream:
/// it owns the portion of the stream containing this flow file's content.
///
/// When it is no longer needed, [`into_returned`](Self::into_returned) gives the content reader
/// back to the stream it came from, allowing subsequent flow files to be parsed.
#[derive(Debug)]
pub struct StreamedFlowFile<R> {
    pub header: FlowFileHeader,
    pub contents: Take<R>,
    /// The content reader goes back to the stream it came from.
    pub returns: bool,
}

impl<R> StreamedFlowFile<R> {
    /// The header of the flow file.
    pub fn header(&self) -> (header: &FlowFileHeader)
        ensures
            *header == self.header,
    {
        &self.header
    }

    /// The length of the body of the flow file.
    ///
    /// Note that this is not how many bytes may be left in the [`contents`](Self::contents),
    /// but rather how many bytes it is expected to produce in total, according to the flow file
    /// header.
    #[must_use]
    pub fn len(&self) -> (len: u64)
        ensures
            len == self.header.size,
    {
        self.header.size
    }

    /// Return `true` if the flow file self-reports to be empty.
    #[must_use]
    pub fn is_empty(&self) -> (yes: bool)
        ensures
            yes == (self.header.size == 0),
    {
        self.header.size == 0
    }

    /// All attributes contained in the flow file.
    #[must_use]
    pub fn attributes(&self) -> (attributes: &Attributes)
        ensures
            *attributes == self.header.attributes,
    {
        &self.header.attributes
    }

    /// Get a reader for the content of the flow file.
    ///
    /// The reader is limited to exactly the size that the header declares; reading beyond that
    /// is the end.
    pub fn contents(&mut self) -> (contents: &mut Take<R>)
        ensures
            *contents == old(self).contents,
            final(self).contents == *final(contents),
            final(self).header == old(self).header,
            final(self).returns == old(self).returns,
    {
        &mut self.contents
    }

    /// Prevent automatic return of the content reader.
    ///
    /// Call this when the related [`StreamedFlowFiles`] will be gone before this flow file,
    /// such as when extracting a single flow file from it.
    pub fn disable_automatic_return_of_internal_reader(&mut self)
        ensures
            !final(self).returns,
            final(self).header == old(self).header,
            final(self).contents == old(self).contents,
    {
        self.returns = false;
    }

    /// The content reader, if it goes back to the stream it came from.
    pub fn into_returned(self) -> (contents: Option<Take<R>>)
        ensures
            contents == if self.returns {
                Some(self.contents)
            } else {
                None
            },
    {
        if self.returns {
            Some(self.contents)
        } else {
            None
        }
    }
}

/// Where a stream stands.
#[derive(Debug, Clone, Copy, PartialEq, Eq, Structural)]
pub enum FlowFileIteratorState {
    /// It has the reader.
    Owned,
    /// A header is being parsed.
    Parsing,
    /// A flow file has the reader.
    OnLoan,
    /// What is left of a content is being read.
    NeedsToDrain,
    /// It is over.
    Done,
}

/// What happened to a stream.
#[derive(Debug, PartialEq, Eq)]
pub enum StreamEvent {
    /// The flow file gave the reader back, with so much of its content left.
    Returned(u64),
    /// The flow file is gone, and the reader with it.
    Lost,
    /// What was left of the content is read.
    Drained,
    /// It could not be read.
    DrainFailed(IoError),
    /// There is no other header.
    Ended,
    /// There is one, of a flow file that takes so many bytes in all.
    Parsed(u64),
    /// What is there is not a header.
    ParseFailed(FlowFileParsingError),
}

/// What to do for a stream.
#[derive(Debug, PartialEq, Eq)]
pub enum StreamAction {
    /// Parse the next header.
    Parse,
    /// Wait for the reader to come back.
    AwaitReturn,
    /// Read what is left of the content.
    Drain,
    /// Hand over the flow file.
    Yield,
    /// Hand over this error.
    YieldError(FlowFileParsingError),
    /// There is nothing more.
    End,
}

/// This can happen where a stream stands.
pub open spec fn admits(state: FlowFileIteratorState, event: StreamEvent) -> bool {
    match event {
        StreamEvent::Returned(_) => state is OnLoan,
        StreamEvent::Lost => state is OnLoan,
        StreamEvent::Drained => state is NeedsToDrain,
        StreamEvent::DrainFailed(_) => state is NeedsToDrain,
        StreamEvent::Ended => state is Parsing,
        StreamEvent::Parsed(_) => state is Parsing,
        StreamEvent::ParseFailed(_) => state is Parsing,
    }
}

/// Where a stream stands and what is to be done for it.
pub struct StreamPlan {
    pub state: FlowFileIteratorState,
    pub remaining: Option<u64>,
    pub action: StreamAction,
}

/// What is to be done for a stream that stands here.
pub open spec fn pursued(state: FlowFileIteratorState, remaining: Option<u64>) -> StreamPlan {
    match state {
        FlowFileIteratorState::Owned => if remaining == Some(0u64) {
            StreamPlan { state: FlowFileIteratorState::Done, remaining, action: StreamAction::End }
        } else {
            StreamPlan { state: FlowFileIteratorState::Parsing, remaining, action: StreamAction::Parse }
        },
        FlowFileIteratorState::Parsing => StreamPlan { state, remaining, action: StreamAction::Parse },
        FlowFileIteratorState::OnLoan => StreamPlan { state, remaining, action: StreamAction::AwaitReturn },
        FlowFileIteratorState::NeedsToDrain => StreamPlan { state, remaining, action: StreamAction::Drain },
        FlowFileIteratorState::Done => StreamPlan { state, remaining, action: StreamAction::End },
    }
}

/// What is to be done after an event. A stream that `recovers` goes on behind
/// what was not a header; any other is over.
pub open spec fn planned(remaining: Option<u64>, event: StreamEvent, recovers: bool) -> StreamPlan {
    match event {
        StreamEvent::Returned(left) => if left > 0 {
            StreamPlan { state: FlowFileIteratorState::NeedsToDrain, remaining, action: StreamAction::Drain }
        } else {
            pursued(FlowFileIteratorState::Owned, remaining)
        },
        StreamEvent::Lost => StreamPlan {
            state: FlowFileIteratorState::Done,
            remaining,
            action: StreamAction::YieldError(FlowFileParsingError::BrokenChannel),
        },
        StreamEvent::Drained => pursued(FlowFileIteratorState::Owned, remaining),
        StreamEvent::DrainFailed(e) => StreamPlan {
            state: FlowFileIteratorState::Done,
            remaining,
            action: StreamAction::YieldError(FlowFileParsingError::Io(e)),
        },
        StreamEvent::Ended => StreamPlan {
            state: FlowFileIteratorState::Done,
            remaining,
            action: StreamAction::End,
        },
        StreamEvent::Parsed(total) => match remaining {
            Some(n) => if n < total {
                StreamPlan {
                    state: FlowFileIteratorState::Done,
                    remaining,
                    action: StreamAction::YieldError(
                        FlowFileParsingError::ContentLengthLengthMismatch {
                            content_length: n,
                            flow_file_required: total,
                        },
                    ),
                }
            } else {
                StreamPlan {
                    state: FlowFileIteratorState::OnLoan,
                    remaining: Some((n - total) as u64),
                    action: StreamAction::Yield,
                }
            },
            None => StreamPlan { state: FlowFileIteratorState::OnLoan, remaining, action: StreamAction::Yield },
        },
        StreamEvent::ParseFailed(e) => StreamPlan {
            state: if recovers {
                FlowFileIteratorState::Owned
            } else {
                FlowFileIteratorState::Done
            },
            remaining,
            action: StreamAction::YieldError(e),
        },
    }
}

/// A stream of NiFi Flow Files parsed from a byte stream.
///
/// Because each flow file's content is streamed from a shared underlying byte stream, you **must**
/// process flow files in order: the parser cannot read subsequent flow files until the current
/// one's content is given back.
///
/// An error ends the stream.
#[derive(Debug)]
pub struct StreamedFlowFiles {
    /// Where the stream stands.
    pub state: FlowFileIteratorState,
    /// The expected length of what is left, as reported by the `Content-Length` header.
    /// This might not be available, e.g. in case of chunked encoding.
    pub remaining_length: Option<u64>,
}

impl StreamedFlowFiles {
    /// A stream without knowledge of the total content length. It goes on until the end.
    pub fn new() -> (stream: StreamedFlowFiles)
        ensures
            stream.state is Owned,
            stream.remaining_length is None,
    {
        StreamedFlowFiles { state: FlowFileIteratorState::Owned, remaining_length: None }
    }

    /// A stream with known content length.
    ///
    /// This is useful when the `Content-Length` header is available, allowing the stream to
    /// detect when all flow files have been read.
    pub fn new_with_content_length(content_length: u64) -> (stream: StreamedFlowFiles)
        ensures
            stream.state is Owned,
            stream.remaining_length == Some(content_length),
    {
        StreamedFlowFiles { state: FlowFileIteratorState::Owned, remaining_length: Some(content_length) }
    }

    /// The stream knows that it will not yield more flow files.
    pub open spec fn exhausted(self) -> bool {
        self.remaining_length == Some(0u64) || self.state is Done
    }

    /// Returns `true` if the stream knows that it will not yield more flow files.
    ///
    /// This can happen when:
    /// - The content length was 0, or has been used up.
    /// - All flow files have already been consumed (the stream has ended).
    ///
    /// Note: without content length, this will always return `false` until the stream is
    /// exhausted.
    pub fn is_empty(&self) -> (yes: bool)
        ensures
            yes == self.exhausted(),
    {
        let used_up = match self.remaining_length {
            Some(n) => n == 0,
            None => false,
        };
        used_up || self.state == FlowFileIteratorState::Done
    }

    /// What to do for whoever waits for the next flow file.
    pub fn poll_next(&mut self) -> (action: StreamAction)
        ensures
            pursued(old(self).state, old(self).remaining_length) == (StreamPlan {
                state: final(self).state,
                remaining: final(self).remaining_length,
                action,
            }),
    {
        match self.state {
            FlowFileIteratorState::Owned => {
                let used_up = match self.remaining_length {
                    Some(n) => n == 0,
                    None => false,
                };
                if used_up {
                    self.state = FlowFileIteratorState::Done;
                    StreamAction::End
                } else {
                    self.state = FlowFileIteratorState::Parsing;
                    StreamAction::Parse
                }
            },
            FlowFileIteratorState::Parsing => StreamAction::Parse,
            FlowFileIteratorState::OnLoan => StreamAction::AwaitReturn,
            FlowFileIteratorState::NeedsToDrain => StreamAction::Drain,
            FlowFileIteratorState::Done => StreamAction::End,
        }
    }

    /// Go on after an event.
    pub fn step(&mut self, event: StreamEvent) -> (action: StreamAction)
        requires
            admits(old(self).state, event),
        ensures
            planned(old(self).remaining_length, event, false) == (StreamPlan {
                state: final(self).state,
                remaining: final(self).remaining_length,
                action,
            }),
    {
        match event {
            StreamEvent::Returned(left) => if left > 0 {
                self.state = FlowFileIteratorState::NeedsToDrain;
                StreamAction::Drain
            } else {
                self.state = FlowFileIteratorState::Owned;
                self.poll_next()
            },
            StreamEvent::Lost => {
                self.state = FlowFileIteratorState::Done;
                StreamAction::YieldError(FlowFileParsingError::BrokenChannel)
            },
            StreamEvent::Drained => {
                self.state = FlowFileIteratorState::Owned;
                self.poll_next()
            },
            StreamEvent::DrainFailed(e) => {
                self.state = FlowFileIteratorState::Done;
                StreamAction::YieldError(FlowFileParsingError::Io(e))
            },
            StreamEvent::Ended => {
                self.state = FlowFileIteratorState::Done;
                StreamAction::End
            },
            StreamEvent::Parsed(total) => {
                if let Some(remaining) = self.remaining_length {
                    if remaining < total {
                        self.state = FlowFileIteratorState::Done;
                        return StreamAction::YieldError(
                            FlowFileParsingError::ContentLengthLengthMismatch {
                                content_length: remaining,
                                flow_file_required: total,
                            },
                        );
                    }
                    self.remaining_length = Some(remaining - total);
                }
                self.state = FlowFileIteratorState::OnLoan;
                StreamAction::Yield
            },
            StreamEvent::ParseFailed(e) => {
                self.state = FlowFileIteratorState::Done;
                StreamAction::YieldError(e)
            },
        }
    }
}

/// Parser capable of yielding successive flow files from a stream of bytes.
///
/// What is not a header is reported, and the stream goes on behind it.
#[derive(Debug)]
pub struct FlowFileIterator {
    /// Where the iterator stands.
    pub state: FlowFileIteratorState,
}

impl FlowFileIterator {
    /// An iterator over a stream of which nothing has been read.
    pub fn new() -> (stream: FlowFileIterator)
        ensures
            stream.state is Owned,
    {
        FlowFileIterator { state: FlowFileIteratorState::Owned }
    }

    /// What to do for whoever waits for the next flow file.
    pub fn poll_next(&mut self) -> (action: StreamAction)
        ensures
            pursued(old(self).state, None) == (StreamPlan { state: final(self).state, remaining: None, action }),
    {
        match self.state {
            FlowFileIteratorState::Owned => {
                self.state = FlowFileIteratorState::Parsing;
                StreamAction::Parse
            },
            FlowFileIteratorState::Parsing => StreamAction::Parse,
            FlowFileIteratorState::OnLoan => StreamAction::AwaitReturn,
            FlowFileIteratorState::NeedsToDrain => StreamAction::Drain,
            FlowFileIteratorState::Done => StreamAction::End,
        }
    }

    /// Go on after an event.
    pub fn step(&mut self, event: StreamEvent) -> (action: StreamAction)
        requires
            admits(old(self).state, event),
        ensures
            planned(None, event, true) == (StreamPlan { state: final(self).state, remaining: None, action }),
    {
        match event {
            StreamEvent::Returned(left) => if left > 0 {
                self.state = FlowFileIteratorState::NeedsToDrain;
                StreamAction::Drain
            } else {
                self.state = FlowFileIteratorState::Owned;
                self.poll_next()
            },
            StreamEvent::Lost => {
                self.state = FlowFileIteratorState::Done;
                StreamAction::YieldError(FlowFileParsingError::BrokenChannel)
            },
            StreamEvent::Drained => {
                self.state = FlowFileIteratorState::Owned;
                self.poll_next()
            },
            StreamEvent::DrainFailed(e) => {
                self.state = FlowFileIteratorState::Done;
                StreamAction::YieldError(FlowFileParsingError::Io(e))
            },
            StreamEvent::Ended => {
                self.state = FlowFileIteratorState::Done;
                StreamAction::End
            },
            StreamEvent::Parsed(_) => {
                self.state = FlowFileIteratorState::OnLoan;
                StreamAction::Yield
            },
            StreamEvent::ParseFailed(e) => {
                self.state = FlowFileIteratorState::Owned;
                StreamAction::YieldError(e)
            },
        }
    }
}

/// The one flow file of a stream, given what the stream yielded first and what
/// is then left of its content length.
///
/// Nothing at all is no flow file, and an error is that error. Where some of
/// the content length is left, there is more than one flow file. Where no
/// content length is known, what follows the content has to tell: see
/// [`after_content`].
pub open spec fn single<R>(
    first: Option<core::result::Result<StreamedFlowFile<R>, FlowFileParsingError>>,
    remaining: Option<u64>,
    r: core::result::Result<StreamedFlowFile<R>, FlowFileParsingError>,
) -> bool {
    match first {
        None => r matches Err(e) && e == FlowFileParsingError::FlowFileExpected,
        Some(Err(e)) => r matches Err(same) && same == e,
        Some(Ok(f)) => if remaining matches Some(n) && n > 0 {
            r matches Err(e) && e == FlowFileParsingError::SingleFlowFileExpected
        } else {
            &&& r matches Ok(g)
            &&& g.header == f.header
            &&& g.contents == f.contents
            &&& !g.returns
        },
    }
}

/// The one flow file of a stream: what the stream yielded first, unless it
/// yielded nothing, or its content length says that there is more.
///
/// Without a content length, whoever reads the content finds out at the end of
/// it whether more follows, and asks [`after_content`].
///
/// The content reader is not handed back: the stream is gone by the time the
/// flow file is.
pub fn single_flow_file<R>(
    first: Option<core::result::Result<StreamedFlowFile<R>, FlowFileParsingError>>,
    stream: &StreamedFlowFiles,
) -> (r: core::result::Result<StreamedFlowFile<R>, FlowFileParsingError>)
    ensures
        single(first, stream.remaining_length, r),
{
    match first {
        None => Err(FlowFileParsingError::FlowFileExpected),
        Some(Err(e)) => Err(e),
        Some(Ok(f)) => {
            if let Some(n) = stream.remaining_length {
                if n > 0 {
                    return Err(FlowFileParsingError::SingleFlowFileExpected);
                }
            }
            let mut f = f;
            f.disable_automatic_return_of_internal_reader();
            Ok(f)
        },
    }
}

/// What to make of what follows the content of a single flow file.
#[derive(Debug, PartialEq, Eq)]
pub enum TailStep {
    /// Read again, and come back with what that came to.
    Read,
    /// Nothing follows.
    Clean,
    /// It is not the single flow file that was expected, or that could not be
    /// told.
    Failed(FlowFileParsingError),
}

/// What a read behind the content of a single flow file tells.
pub open spec fn told(event: ReadEvent) -> TailStep {
    match event {
        ReadEvent::End => TailStep::Clean,
        ReadEvent::Bytes(_) => TailStep::Failed(FlowFileParsingError::SingleFlowFileExpected),
        ReadEvent::Failed(e) => if e.kind == ErrorKind::Interrupted {
            TailStep::Read
        } else {
            TailStep::Failed(FlowFileParsingError::Io(e))
        },
    }
}

/// Go on after a read behind the content of a single flow file: the end is as
/// it should be, and any byte is one too many.
pub fn after_content(event: ReadEvent) -> (step: TailStep)
    requires
        event matches ReadEvent::Bytes(bytes) ==> bytes@.len() >= 1,
    ensures
        step == told(event),
{
    match event {
        ReadEvent::End => TailStep::Clean,
        ReadEvent::Bytes(_) => TailStep::Failed(FlowFileParsingError::SingleFlowFileExpected),
        ReadEvent::Failed(e) => if e.kind == ErrorKind::Interrupted {
            TailStep::Read
        } else {
            TailStep::Failed(FlowFileParsingError::Io(e))
        },
    }
}

/// What a request with another content type is answered with.
pub const WRONG_CONTENT_TYPE: &'static str = "Only `Content-Type: application/flowfile-v3` is accepted.";

/// Refuse a request, with a status code and a message, unless its
/// `Content-Type` is `application/flowfile-v3` and nothing else.
pub fn check_content_type(value: Option<&str>) -> (r: core::result::Result<(), (u16, &'static str)>)
    ensures
        if value matches Some(v) && v@ == MEDIA_TYPE@ {
            r is Ok
        } else {
            r matches Err((code, message)) && code == 415 && message@ == WRONG_CONTENT_TYPE@
        },
{
    match value {
        Some(v) => match order(v, MEDIA_TYPE) {
            Order::Equal => Ok(()),
            _ => Err((415, WRONG_CONTENT_TYPE)),
        },
        None => Err((415, WRONG_CONTENT_TYPE)),
    }
}

/// The content length that a `Content-Length` names, if it names one.
pub fn content_length(value: Option<&str>) -> (n: Option<u64>)
    ensures
        match value {
            Some(text) => n == whole_number(text@),
            None => n is None,
        },
{
    match value {
        Some(text) => parse_number(text),
        None => None,
    }
}

/// How many bytes a field length takes.
pub fn field_length_encoded_size(n: u32) -> (size: u64)
    ensures
        size == crate::flowfiles::parser::encoded_size(n as nat),
{
    if n >= 0xFFFF {
        6
    } else {
        2
    }
}

/// How many bytes a string takes, its length included.
pub fn string_encoded_size(s: &str) -> (size: u64)
    requires
        crate::format::encodable_text(s@),
    ensures
        size == crate::format::text_wire(s@).len(),
{
    let len: usize = s.as_bytes().len();
    proof {
        crate::format::lemma_be_bytes(len as nat, 2);
        crate::format::lemma_be_bytes(len as nat, 4);
    }
    len as u64 + field_length_encoded_size(len as u32)
}

} // verus!
