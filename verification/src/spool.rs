//! Copying a flow file's content to a temporary file in the background, and
//! reading it back while the copy is still going on.
//!
//! Two tasks share the file. One copies the content into it and publishes how
//! far it has come; the other follows, and hands the bytes on to whoever reads
//! the content. Neither is here: what is here is what each of them does next.

use vstd::prelude::*;

use crate::error::IoError;

verus! {

/// How much spooled content may sit between the temporary file and the reader,
/// and how much is copied at once.
pub const PIPE_SIZE: usize = 65536;

/// How many bytes are in the file, and whether the copy is finished.
#[derive(Debug, Clone, Copy, PartialEq, Eq, Structural)]
pub struct Progress {
    pub written: u64,
    pub done: bool,
}

/// Where the copy stands.
#[derive(Debug, Clone, Copy, PartialEq, Eq, Structural)]
pub enum CopyStage {
    /// It reads the content.
    Reading,
    /// It writes this many bytes to the file.
    Writing(u64),
    /// It makes sure that they are there.
    Flushing(u64),
    /// It is over.
    Stopped,
}

/// What the copy was told.
#[derive(Debug, Clone, Copy, PartialEq, Eq, Structural)]
pub enum CopyEvent {
    /// The content gave this many bytes; none is its end.
    Read(u64),
    /// The bytes are written.
    Written,
    /// The bytes are in the file.
    Flushed,
    /// It failed: to read, to write or to flush.
    Failed,
}

/// What the copy does next.
#[derive(Debug, Clone, Copy, PartialEq, Eq, Structural)]
pub enum CopyAction {
    /// Write what was read.
    Write,
    /// Flush the file. A file buffers, so a finished write does not mean the
    /// bytes are there. Publishing their number before they are would have the
    /// reader see a short read and take it for the end.
    Flush,
    /// Publish this, and read on.
    Publish(Progress),
    /// Publish this, and stop.
    Finish(Progress),
    /// Keep the failure for the read that reaches this point, publish this,
    /// and stop.
    Fail(Progress),
}

/// The copy of the content into the file.
#[derive(Debug, Clone, Copy, PartialEq, Eq, Structural)]
pub struct CopyTask {
    /// How many bytes are in the file.
    pub written: u64,
    /// Where it stands.
    pub stage: CopyStage,
}

impl CopyTask {
    /// This can happen where the copy stands.
    pub open spec fn admits(self, event: CopyEvent) -> bool {
        match (self.stage, event) {
            (CopyStage::Stopped, _) => false,
            (_, CopyEvent::Failed) => true,
            (CopyStage::Reading, CopyEvent::Read(n)) => self.written + n <= u64::MAX,
            (CopyStage::Writing(n), CopyEvent::Written) => self.written + n <= u64::MAX,
            (CopyStage::Flushing(n), CopyEvent::Flushed) => self.written + n <= u64::MAX,
            _ => false,
        }
    }

    /// The copy after an event.
    pub open spec fn after(self, event: CopyEvent) -> CopyTask {
        match (self.stage, event) {
            (CopyStage::Reading, CopyEvent::Read(n)) => if n == 0 {
                CopyTask { stage: CopyStage::Stopped, ..self }
            } else {
                CopyTask { stage: CopyStage::Writing(n), ..self }
            },
            (CopyStage::Writing(n), CopyEvent::Written) => CopyTask { stage: CopyStage::Flushing(n), ..self },
            (CopyStage::Flushing(n), CopyEvent::Flushed) => CopyTask {
                written: (self.written + n) as u64,
                stage: CopyStage::Reading,
            },
            _ => CopyTask { stage: CopyStage::Stopped, ..self },
        }
    }

    /// What is done about an event.
    pub open spec fn answer(self, event: CopyEvent) -> CopyAction {
        match event {
            CopyEvent::Read(n) => if n == 0 {
                CopyAction::Finish(Progress { written: self.written, done: true })
            } else {
                CopyAction::Write
            },
            CopyEvent::Written => CopyAction::Flush,
            CopyEvent::Flushed => CopyAction::Publish(Progress { written: self.after(event).written, done: false }),
            CopyEvent::Failed => CopyAction::Fail(Progress { written: self.written, done: true }),
        }
    }

    /// How many bytes have been read and are not in the file yet.
    pub open spec fn on_its_way(self) -> nat {
        match self.stage {
            CopyStage::Writing(n) => n as nat,
            CopyStage::Flushing(n) => n as nat,
            _ => 0,
        }
    }

    /// A copy that is about to read for the first time.
    pub fn new() -> (task: CopyTask)
        ensures
            task == (CopyTask { written: 0, stage: CopyStage::Reading }),
    {
        CopyTask { written: 0, stage: CopyStage::Reading }
    }

    /// Go on after an event.
    pub fn step(&mut self, event: CopyEvent) -> (action: CopyAction)
        requires
            old(self).admits(event),
        ensures
            *final(self) == old(self).after(event),
            action == old(self).answer(event),
    {
        match event {
            CopyEvent::Read(n) => if n == 0 {
                self.stage = CopyStage::Stopped;
                CopyAction::Finish(Progress { written: self.written, done: true })
            } else {
                self.stage = CopyStage::Writing(n);
                CopyAction::Write
            },
            CopyEvent::Written => {
                if let CopyStage::Writing(n) = self.stage {
                    self.stage = CopyStage::Flushing(n);
                }
                CopyAction::Flush
            },
            CopyEvent::Flushed => {
                if let CopyStage::Flushing(n) = self.stage {
                    self.written = self.written + n;
                    self.stage = CopyStage::Reading;
                }
                CopyAction::Publish(Progress { written: self.written, done: false })
            },
            CopyEvent::Failed => {
                self.stage = CopyStage::Stopped;
                CopyAction::Fail(Progress { written: self.written, done: true })
            },
        }
    }
}

/// What the follower was told.
#[derive(Debug, Clone, Copy, PartialEq, Eq, Structural)]
pub enum FollowEvent {
    /// The copy has come so far.
    Progress(Progress),
    /// The file gave this many bytes.
    Read(usize),
    /// The file could not be read.
    ReadFailed,
    /// The copy went away without finishing.
    Abandoned,
    /// Whoever reads the content went away.
    ReaderGone,
}

/// What the follower does next.
#[derive(Debug, Clone, Copy, PartialEq, Eq, Structural)]
pub enum FollowAction {
    /// Wait until the copy has come further.
    Wait,
    /// Read up to this many bytes from the file.
    Read(usize),
    /// Hand on what was read, and then see how far the copy has come.
    Deliver,
    /// Stop, and end the content.
    Stop,
    /// Keep the failure for whoever reads the content, and stop.
    Fail,
}

/// The follower: what has been handed on.
#[derive(Debug, Clone, Copy, PartialEq, Eq, Structural)]
pub struct FollowTask {
    /// How many bytes of the file have been handed on.
    pub position: u64,
}

/// How many bytes the follower can read at once.
pub open spec fn within_reach(position: u64, written: u64) -> usize {
    if written - position < PIPE_SIZE {
        (written - position) as usize
    } else {
        PIPE_SIZE
    }
}

impl FollowTask {
    /// This can happen where the follower stands.
    pub open spec fn admits(self, event: FollowEvent) -> bool {
        match event {
            FollowEvent::Progress(progress) => self.position <= progress.written,
            FollowEvent::Read(n) => self.position + n <= u64::MAX,
            _ => true,
        }
    }

    /// The follower after an event.
    pub open spec fn after(self, event: FollowEvent) -> FollowTask {
        match event {
            FollowEvent::Read(n) => FollowTask { position: (self.position + n) as u64 },
            _ => self,
        }
    }

    /// What is done about an event. Below the count that the copy published
    /// there are bytes to come, so a read that gives none is no end.
    pub open spec fn answer(self, event: FollowEvent) -> FollowAction {
        match event {
            FollowEvent::Progress(progress) => if self.position < progress.written {
                FollowAction::Read(within_reach(self.position, progress.written))
            } else if progress.done {
                FollowAction::Stop
            } else {
                FollowAction::Wait
            },
            FollowEvent::Read(n) => if n == 0 {
                FollowAction::Wait
            } else {
                FollowAction::Deliver
            },
            FollowEvent::ReadFailed => FollowAction::Fail,
            FollowEvent::Abandoned => FollowAction::Stop,
            FollowEvent::ReaderGone => FollowAction::Stop,
        }
    }

    /// A follower that has handed on nothing.
    pub fn new() -> (task: FollowTask)
        ensures
            task.position == 0,
    {
        FollowTask { position: 0 }
    }

    /// Go on after an event.
    pub fn step(&mut self, event: FollowEvent) -> (action: FollowAction)
        requires
            old(self).admits(event),
        ensures
            *final(self) == old(self).after(event),
            action == old(self).answer(event),
    {
        match event {
            FollowEvent::Progress(progress) => if self.position < progress.written {
                let ahead: u64 = progress.written - self.position;
                if ahead < PIPE_SIZE as u64 {
                    FollowAction::Read(ahead as usize)
                } else {
                    FollowAction::Read(PIPE_SIZE)
                }
            } else if progress.done {
                FollowAction::Stop
            } else {
                FollowAction::Wait
            },
            FollowEvent::Read(n) => {
                self.position = self.position + n as u64;
                if n == 0 {
                    FollowAction::Wait
                } else {
                    FollowAction::Deliver
                }
            },
            FollowEvent::ReadFailed => FollowAction::Fail,
            FollowEvent::Abandoned => FollowAction::Stop,
            FollowEvent::ReaderGone => FollowAction::Stop,
        }
    }
}

/// Content held in a temporary file that a background task is still filling,
/// as whoever reads it sees it.
///
/// If the copy fails, the error surfaces from the read that reaches the point
/// where it stopped.
#[derive(Debug)]
pub struct SpooledContent {
    /// The failure that nobody has been told of yet.
    pub failure: Option<IoError>,
}

impl SpooledContent {
    /// What a read is told for which `n` bytes came through the pipe.
    pub open spec fn tells(self, n: usize) -> Option<IoError> {
        if n == 0 {
            self.failure
        } else {
            None
        }
    }

    /// What is left to tell after it.
    pub open spec fn after(self, n: usize) -> SpooledContent {
        if n == 0 {
            SpooledContent { failure: None }
        } else {
            self
        }
    }

    /// Content of which no failure is known.
    pub fn new() -> (content: SpooledContent)
        ensures
            content.failure is None,
    {
        SpooledContent { failure: None }
    }

    /// Keep a failure for the read that reaches it.
    pub fn keep(&mut self, failure: IoError)
        ensures
            final(self).failure == Some(failure),
    {
        self.failure = Some(failure);
    }

    /// What a read reports for which `n` bytes came through the pipe. No bytes
    /// mean that the pipe ended: either the copy finished, or it stopped on an
    /// error the reader has not been told about yet.
    pub fn after_read(&mut self, n: usize) -> (failure: Option<IoError>)
        ensures
            failure == old(self).tells(n),
            *final(self) == old(self).after(n),
    {
        if n == 0 {
            let mut failure: Option<IoError> = None;
            std::mem::swap(&mut failure, &mut self.failure);
            failure
        } else {
            None
        }
    }
}

/// The copy and the follower agree: the file holds the first bytes of the
/// content, at least as many as were published, and the first of those have
/// been handed on.
pub open spec fn in_step(
    content: Seq<u8>,
    file: Seq<u8>,
    copy: CopyTask,
    follow: FollowTask,
    delivered: Seq<u8>,
) -> bool {
    &&& file.is_prefix_of(content)
    &&& follow.position <= copy.written <= file.len()
    &&& delivered == content.take(follow.position as int)
}

/// Whatever the copy is told, it and the follower stay in step. What it adds
/// to the file when it has read some bytes are the next ones of the content.
pub proof fn law_copying_stays_in_step(
    content: Seq<u8>,
    file: Seq<u8>,
    copy: CopyTask,
    follow: FollowTask,
    delivered: Seq<u8>,
    event: CopyEvent,
    grown: Seq<u8>,
)
    requires
        in_step(content, file, copy, follow, delivered),
        copy.admits(event),
        file.is_prefix_of(grown),
        grown.is_prefix_of(content),
        event is Flushed ==> copy.after(event).written <= grown.len(),
    ensures
        in_step(content, grown, copy.after(event), follow, delivered),
{
}

/// The follower reads only what is in the file, and when it hands that on the
/// two stay in step: the bytes come out in order, with none left out and none
/// twice.
pub proof fn law_following_stays_in_step(
    content: Seq<u8>,
    file: Seq<u8>,
    copy: CopyTask,
    follow: FollowTask,
    delivered: Seq<u8>,
    progress: Progress,
    n: usize,
)
    requires
        in_step(content, file, copy, follow, delivered),
        follow.position < progress.written <= copy.written,
        follow.answer(FollowEvent::Progress(progress)) matches FollowAction::Read(want) && n <= want,
    ensures
        in_step(
            content,
            file,
            copy,
            follow.after(FollowEvent::Read(n)),
            delivered + file.subrange(follow.position as int, follow.position + n),
        ),
{
    assert(delivered + file.subrange(follow.position as int, follow.position + n) =~= content.take(
        follow.position + n,
    ));
}

/// The copy after some events, from its start.
pub open spec fn copied(events: Seq<CopyEvent>) -> CopyTask
    decreases events.len(),
{
    if events.len() == 0 {
        CopyTask { written: 0, stage: CopyStage::Reading }
    } else {
        copied(events.drop_last()).after(events.last())
    }
}

/// These events can happen to a copy, one after the other.
pub open spec fn can_happen(events: Seq<CopyEvent>) -> bool
    decreases events.len(),
{
    events.len() > 0 ==> can_happen(events.drop_last()) && copied(events.drop_last()).admits(events.last())
}

/// How many bytes the content gave, as the reads said.
pub open spec fn given(events: Seq<CopyEvent>) -> nat
    decreases events.len(),
{
    if events.len() == 0 {
        0
    } else {
        given(events.drop_last()) + match events.last() {
            CopyEvent::Read(n) => n as nat,
            _ => 0,
        }
    }
}

/// The copy came to the end of the content: the last thing it was told is a
/// read that gave nothing.
pub open spec fn finished(events: Seq<CopyEvent>) -> bool {
    events.len() > 0 && events.last() == CopyEvent::Read(0)
}

/// A copy loses no count of what the content gave. While it goes on, that is
/// what is in the file and what is on its way there. When it comes to the end
/// of the content, it is exactly what is in the file, and that is published as
/// finished. When it fails, what is in the file is no more than was given.
pub proof fn law_the_copy_counts_what_it_was_given(events: Seq<CopyEvent>)
    requires
        can_happen(events),
    ensures
        ({
            let copy = copied(events);
            &&& !(copy.stage is Stopped) ==> given(events) == copy.written + copy.on_its_way()
            &&& copy.written <= given(events)
            &&& finished(events) ==> {
                &&& given(events) == copy.written
                &&& copied(events.drop_last()).answer(events.last()) == CopyAction::Finish(
                    Progress { written: copy.written, done: true },
                )
            }
        }),
    decreases events.len(),
{
    if events.len() > 0 {
        law_the_copy_counts_what_it_was_given(events.drop_last());
    }
}

/// Spooling keeps the content. Where the copy came to the end of a content,
/// and the follower stopped on what it then published, all that the content
/// gave has been handed on, in order.
pub proof fn law_spooling_preserves_the_content(
    events: Seq<CopyEvent>,
    content: Seq<u8>,
    file: Seq<u8>,
    follow: FollowTask,
    delivered: Seq<u8>,
)
    requires
        can_happen(events),
        finished(events),
        content.len() == given(events),
        in_step(content, file, copied(events), follow, delivered),
        copied(events.drop_last()).answer(events.last()) matches CopyAction::Finish(all) && follow.answer(
            FollowEvent::Progress(all),
        ) is Stop,
    ensures
        delivered == content,
{
    law_the_copy_counts_what_it_was_given(events);
    assert(content.take(content.len() as int) =~= content);
}

/// Where the copy failed, and the follower stopped on what it then published,
/// what has been handed on is the part of the content that was in the file for
/// sure: no byte that was only on its way there, and none that is not the
/// content's.
pub proof fn law_a_failed_copy_hands_on_what_it_wrote(
    events: Seq<CopyEvent>,
    content: Seq<u8>,
    file: Seq<u8>,
    follow: FollowTask,
    delivered: Seq<u8>,
)
    requires
        can_happen(events),
        events.len() > 0,
        events.last() == CopyEvent::Failed,
        content.len() == given(events),
        in_step(content, file, copied(events), follow, delivered),
        copied(events.drop_last()).answer(events.last()) matches CopyAction::Fail(so_far) && follow.answer(
            FollowEvent::Progress(so_far),
        ) is Stop,
    ensures
        delivered == content.take(copied(events).written as int),
        delivered.len() == copied(events).written,
        delivered.is_prefix_of(file),
        delivered.len() == given(events.drop_last()) - copied(events.drop_last()).on_its_way(),
{
    law_the_copy_counts_what_it_was_given(events);
    law_the_copy_counts_what_it_was_given(events.drop_last());
    assert(delivered =~= file.take(delivered.len() as int));
}

/// A failure that was kept is told once, by the first read that gets nothing:
/// whatever was handed on before is read first.
pub proof fn law_a_kept_failure_is_told_at_the_end(content: SpooledContent, reads: Seq<usize>)
    requires
        forall|i: int| 0 <= i < reads.len() ==> #[trigger] reads[i] > 0,
    ensures
        told(content, reads) == None::<IoError>,
        after_reads(content, reads) == content,
        told(content, reads.push(0)) == content.failure,
        after_reads(content, reads.push(0)).failure is None,
    decreases reads.len(),
{
    assert(reads.push(0).drop_last() =~= reads);
    if reads.len() > 0 {
        let less = reads.drop_last();
        assert forall|i: int| 0 <= i < less.len() implies #[trigger] less[i] > 0 by {
            assert(less[i] == reads[i]);
        }
        law_a_kept_failure_is_told_at_the_end(content, less);
        assert(reads[reads.len() - 1] > 0);
    }
}

/// What is left to tell after some reads.
pub open spec fn after_reads(content: SpooledContent, reads: Seq<usize>) -> SpooledContent
    decreases reads.len(),
{
    if reads.len() == 0 {
        content
    } else {
        after_reads(content, reads.drop_last()).after(reads.last())
    }
}

/// What the last of some reads is told.
pub open spec fn told(content: SpooledContent, reads: Seq<usize>) -> Option<IoError> {
    if reads.len() == 0 {
        None
    } else {
        after_reads(content, reads.drop_last()).tells(reads.last())
    }
}

/// A copy that stops, in whatever way, publishes exactly what is in the file
/// and says that it is finished.
pub proof fn law_a_stopped_copy_says_so(copy: CopyTask, event: CopyEvent)
    requires
        copy.admits(event),
        copy.after(event).stage is Stopped,
    ensures
        ({
            let last = Progress { written: copy.written, done: true };
            copy.answer(event) == CopyAction::Finish(last) || copy.answer(event) == CopyAction::Fail(last)
        }),
{
}

} // verus!
