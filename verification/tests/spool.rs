use nififf3::spool::{
    CopyAction, CopyEvent, CopyStage, CopyTask, FollowAction, FollowEvent, FollowTask, Progress, PIPE_SIZE,
};
use nififf3::{ErrorKind, IoError, SpooledContent};

#[test]
fn a_copy_publishes_what_it_has_flushed() {
    let mut copy = CopyTask::new();
    assert_eq!(copy.step(CopyEvent::Read(10)), CopyAction::Write);
    assert_eq!(copy.step(CopyEvent::Written), CopyAction::Flush);
    assert_eq!(
        copy.step(CopyEvent::Flushed),
        CopyAction::Publish(Progress { written: 10, done: false })
    );
    assert_eq!(copy.stage, CopyStage::Reading);
    assert_eq!(copy.step(CopyEvent::Read(5)), CopyAction::Write);
    assert_eq!(
        copy.step(CopyEvent::Failed),
        CopyAction::Fail(Progress { written: 10, done: true }),
        "what was not flushed does not count"
    );
    assert_eq!(copy.stage, CopyStage::Stopped);

    let mut copy = CopyTask { written: 7, stage: CopyStage::Reading };
    assert_eq!(copy.step(CopyEvent::Read(0)), CopyAction::Finish(Progress { written: 7, done: true }));
}

#[test]
fn a_follower_reads_what_is_there_and_waits_for_the_rest() {
    let mut follow = FollowTask::new();
    let at = |written, done| FollowEvent::Progress(Progress { written, done });
    assert_eq!(follow.step(at(0, false)), FollowAction::Wait);
    assert_eq!(follow.step(at(10, false)), FollowAction::Read(10));
    assert_eq!(follow.step(FollowEvent::Read(0)), FollowAction::Wait, "bytes are to come");
    assert_eq!(follow.step(FollowEvent::Read(4)), FollowAction::Deliver);
    assert_eq!(follow.position, 4);
    assert_eq!(follow.step(at(10, true)), FollowAction::Read(6));
    assert_eq!(follow.step(at(1 << 40, true)), FollowAction::Read(PIPE_SIZE));
    assert_eq!(follow.step(FollowEvent::Read(6)), FollowAction::Deliver);
    assert_eq!(follow.step(at(10, true)), FollowAction::Stop);
    assert_eq!(follow.step(FollowEvent::ReadFailed), FollowAction::Fail);
    assert_eq!(follow.step(FollowEvent::Abandoned), FollowAction::Stop);
    assert_eq!(follow.step(FollowEvent::ReaderGone), FollowAction::Stop);
}

/// Both tasks over one file, a step of each in turn.
#[test]
fn spooling_preserves_the_flow_file() {
    for len in [0usize, 1, PIPE_SIZE - 1, PIPE_SIZE, 5 * PIPE_SIZE + 7] {
        let content: Vec<u8> = (0..len).map(|i| (i % 251) as u8).collect();
        let mut file: Vec<u8> = Vec::new();
        let mut out: Vec<u8> = Vec::new();
        let mut copy = CopyTask::new();
        let mut follow = FollowTask::new();
        let mut progress = Progress { written: 0, done: false };
        loop {
            if copy.stage != CopyStage::Stopped {
                let n = PIPE_SIZE.min(len - file.len());
                match copy.step(CopyEvent::Read(n as u64)) {
                    CopyAction::Write => {
                        file.extend_from_slice(&content[file.len()..file.len() + n]);
                        assert_eq!(copy.step(CopyEvent::Written), CopyAction::Flush);
                        let CopyAction::Publish(next) = copy.step(CopyEvent::Flushed) else {
                            panic!("nothing published");
                        };
                        progress = next;
                    }
                    CopyAction::Finish(last) => progress = last,
                    other => panic!("{other:?}"),
                }
            }
            match follow.step(FollowEvent::Progress(progress)) {
                FollowAction::Read(want) => {
                    // A read may give less than was asked for.
                    let n = want.div_ceil(2);
                    let from = follow.position as usize;
                    out.extend_from_slice(&file[from..from + n]);
                    assert_eq!(follow.step(FollowEvent::Read(n)), FollowAction::Deliver);
                }
                FollowAction::Wait => {}
                FollowAction::Stop => break,
                other => panic!("{other:?}"),
            }
        }
        assert_eq!(out, content, "{len}");
    }
}

#[test]
fn a_failing_source_surfaces_its_error() {
    let mut content = SpooledContent::new();
    let gone = || IoError::new(ErrorKind::ConnectionReset, "source gone");
    content.keep(gone());
    assert_eq!(content.after_read(3), None, "not before the bytes that came");
    assert_eq!(content.after_read(0), Some(gone()));
    assert_eq!(content.after_read(0), None, "and only once");
}
