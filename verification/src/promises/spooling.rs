//! Copying a content to a file, and handing it on from there.

use vstd::prelude::*;

use crate::error::IoError;
use crate::spool::{
    CopyAction, CopyEvent, CopyStage, CopyTask, FollowAction, FollowEvent, FollowTask, Progress, SpooledContent,
};

verus! {

/// What a follower at `position` may answer to an event, and where it then is.
///
/// A read that gives bytes is delivered, and nothing else moves the position.
/// Below the count that the copy has published the follower reads, no further
/// than that count and no more than 65536 bytes at once. At the count it waits,
/// or stops if the copy is done.
pub open spec fn followed(position: u64, event: FollowEvent, action: FollowAction, next: u64) -> bool {
    match event {
        FollowEvent::Read(n) => {
            &&& next == position + n
            &&& action is Deliver <==> n > 0
            &&& action is Wait <==> n == 0
        },
        FollowEvent::Progress(progress) => {
            &&& next == position
            &&& position < progress.written ==> {
                &&& action matches FollowAction::Read(most)
                &&& 0 < most <= 65536
                &&& position + most <= progress.written
                &&& most < 65536 ==> position + most == progress.written
            }
            &&& position >= progress.written ==> (action is Stop <==> progress.done) && (action is Wait <==> !progress.done)
        },
        FollowEvent::ReadFailed => next == position && action is Fail,
        FollowEvent::Abandoned => next == position && action is Stop,
        FollowEvent::ReaderGone => next == position && action is Stop,
    }
}

/// Every step of a follower is such a step.
pub proof fn law_a_follower_delivers_what_it_reads(task: &mut FollowTask, event: FollowEvent, action: FollowAction)
    requires
        event matches FollowEvent::Read(n) ==> old(task).position + n <= u64::MAX,
        event matches FollowEvent::Progress(progress) ==> old(task).position <= progress.written,
        call_ensures(FollowTask::step, (task, event), action),
    ensures
        followed(old(task).position, event, action, final(task).position),
{
}

/// Every read that gives bytes is delivered, however many they are.
pub proof fn law_every_read_is_delivered(task: &mut FollowTask, n: usize, action: FollowAction)
    requires
        0 < n,
        old(task).position + n <= u64::MAX,
        call_ensures(FollowTask::step, (task, FollowEvent::Read(n)), action),
    ensures
        action is Deliver,
        final(task).position == old(task).position + n,
{
}

/// A follower starts at the front of the file.
pub proof fn law_a_follower_starts_at_the_front(task: FollowTask)
    requires
        call_ensures(FollowTask::new, (), task),
    ensures
        task.position == 0,
{
}

/// A run of a follower, from the front of the file: where it is before each
/// event and after the last, and what it answers.
pub open spec fn is_follower_run(positions: Seq<u64>, events: Seq<FollowEvent>, actions: Seq<FollowAction>) -> bool {
    &&& positions.len() == events.len() + 1
    &&& actions.len() == events.len()
    &&& positions[0] == 0
    &&& forall|i: int| 0 <= i < events.len() ==> followed(positions[i], #[trigger] events[i], actions[i], positions[i + 1])
}

/// What is handed on in a run: for each read that is answered by delivering it,
/// the bytes that it gave, which are those of the file from where the follower
/// was.
pub open spec fn handed_on(file: Seq<u8>, positions: Seq<u64>, events: Seq<FollowEvent>, actions: Seq<FollowAction>) -> Seq<u8>
    decreases events.len(),
{
    if events.len() == 0 {
        Seq::empty()
    } else {
        let last = events.len() - 1;
        let before = handed_on(file, positions.drop_last(), events.drop_last(), actions.drop_last());
        match (events[last], actions[last]) {
            (FollowEvent::Read(n), FollowAction::Deliver) => before + file.subrange(
                positions[last] as int,
                positions[last] + n,
            ),
            _ => before,
        }
    }
}

/// Over any run, what is handed on is the file up to where the follower is: no
/// byte is left out, none comes twice, and none is counted that was not handed
/// on.
pub proof fn law_what_is_handed_on_is_the_file_up_to_the_position(
    file: Seq<u8>,
    positions: Seq<u64>,
    events: Seq<FollowEvent>,
    actions: Seq<FollowAction>,
)
    requires
        is_follower_run(positions, events, actions),
        forall|i: int| 0 <= i < positions.len() ==> #[trigger] positions[i] <= file.len(),
    ensures
        handed_on(file, positions, events, actions) == file.take(positions.last() as int),
    decreases events.len(),
{
    if events.len() == 0 {
        assert(file.take(0) =~= Seq::empty());
    } else {
        let last = events.len() - 1;
        let p = positions.drop_last();
        let e = events.drop_last();
        let a = actions.drop_last();
        assert(is_follower_run(p, e, a)) by {
            assert forall|i: int| 0 <= i < e.len() implies followed(p[i], #[trigger] e[i], a[i], p[i + 1]) by {
                assert(followed(positions[i], events[i], actions[i], positions[i + 1]));
            }
        }
        assert forall|i: int| 0 <= i < p.len() implies #[trigger] p[i] <= file.len() by {
            assert(p[i] == positions[i]);
        }
        law_what_is_handed_on_is_the_file_up_to_the_position(file, p, e, a);
        assert(followed(positions[last], events[last], actions[last], positions[last + 1]));
        assert(p.last() == positions[last]);
        assert(positions[last + 1] <= file.len());
        if let FollowEvent::Read(n) = events[last] {
            if n > 0 {
                assert(file.take(positions[last] as int) + file.subrange(positions[last] as int, positions[last] + n) =~= file.take(
                    positions[last + 1] as int,
                ));
            }
        }
    }
}

/// What a copy may answer to an event, and where it then stands.
///
/// Bytes that were read are written, then flushed, and only then counted and
/// published. The end of the content and a failure stop the copy and publish
/// what had been counted.
pub open spec fn copied_on(task: CopyTask, event: CopyEvent, action: CopyAction, next: CopyTask) -> bool {
    match (event, task.stage) {
        (CopyEvent::Read(n), CopyStage::Reading) => {
            &&& next.written == task.written
            &&& n > 0 ==> action is Write && next.stage == CopyStage::Writing(n)
            &&& n == 0 ==> next.stage is Stopped && (action matches CopyAction::Finish(p) && p.written == task.written && p.done)
        },
        (CopyEvent::Written, CopyStage::Writing(n)) => {
            &&& next.written == task.written
            &&& next.stage == CopyStage::Flushing(n)
            &&& action is Flush
        },
        (CopyEvent::Flushed, CopyStage::Flushing(n)) => {
            &&& next.written == task.written + n
            &&& next.stage is Reading
            &&& action matches CopyAction::Publish(p)
            &&& p.written == task.written + n
            &&& !p.done
        },
        (CopyEvent::Failed, _) => {
            &&& next.written == task.written
            &&& next.stage is Stopped
            &&& action matches CopyAction::Fail(p)
            &&& p.written == task.written
            &&& p.done
        },
        _ => true,
    }
}

/// Every step of a copy is such a step.
pub proof fn law_a_copy_counts_what_is_flushed(task: &mut CopyTask, event: CopyEvent, action: CopyAction)
    requires
        event is Flushed ==> (old(task).stage matches CopyStage::Flushing(n) ==> old(task).written + n <= u64::MAX),
        call_ensures(CopyTask::step, (task, event), action),
    ensures
        copied_on(*old(task), event, action, *final(task)),
{
}

/// A copy starts with nothing in the file, about to read.
pub proof fn law_a_copy_starts_with_nothing(task: CopyTask)
    requires
        call_ensures(CopyTask::new, (), task),
    ensures
        task.written == 0,
        task.stage is Reading,
{
}

/// A failure that was kept is told by the first read that gets nothing, and
/// only by that one. A read that gets bytes is told none.
pub proof fn law_a_failure_waits_for_the_end(content: &mut SpooledContent, n: usize, failure: Option<IoError>)
    requires
        call_ensures(SpooledContent::after_read, (content, n), failure),
    ensures
        n > 0 ==> failure is None && final(content).failure == old(content).failure,
        n == 0 ==> failure == old(content).failure && final(content).failure is None,
{
}

/// A failure is kept as it is.
pub proof fn law_a_failure_is_kept(content: &mut SpooledContent, failure: IoError, fresh: SpooledContent)
    requires
        call_ensures(SpooledContent::keep, (content, failure), ()),
        call_ensures(SpooledContent::new, (), fresh),
    ensures
        final(content).failure == Some(failure),
        fresh.failure is None,
{
}

} // verus!
