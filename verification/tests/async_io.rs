use nififf3::async_io::{with_content, ContentStep, HeaderStep, PendingContent, PendingHeader, ReadEvent};
use nififf3::{
    Error, ErrorKind, FlowFile, FlowFilesAsync, FlowFilesWriterAsync, IoError, Limits,
};

fn sample() -> FlowFile<Vec<u8>> {
    FlowFile::builder()
        .attribute("a", "b")
        .attribute("path", "x")
        .content(b"hello".to_vec())
}

/// A stream that gives `step` bytes at a time.
struct Source {
    bytes: Vec<u8>,
    at: usize,
    step: usize,
}

impl Source {
    fn next(&mut self, limit: usize) -> ReadEvent {
        let n = limit.min(self.step).min(self.bytes.len() - self.at);
        if n == 0 {
            return ReadEvent::End;
        }
        self.at += n;
        ReadEvent::Bytes(self.bytes[self.at - n..self.at].to_vec())
    }
}

fn read_header(source: &mut Source, header: PendingHeader) -> HeaderStep {
    let mut header = header;
    loop {
        let event = source.next(header.limit());
        match header.step(event) {
            HeaderStep::Read(next) => header = next,
            other => return other,
        }
    }
}

fn read_content(source: &mut Source, size: u64) -> Result<Vec<u8>, IoError> {
    let mut content = PendingContent::new(size);
    let mut bytes = Vec::new();
    while content.limit() > 0 {
        let event = source.next(content.limit());
        match content.step(event) {
            ContentStep::Read(next) => content = next,
            ContentStep::Give(more, next) => {
                bytes.extend(more);
                content = next;
            }
            ContentStep::End(end) => return end.map(|_| bytes),
            ContentStep::Failed(e) => return Err(e),
        }
    }
    content.end()?;
    Ok(bytes)
}

fn next(flow_files: &mut FlowFilesAsync<Source>) -> Option<Result<FlowFile<Vec<u8>>, Error>> {
    let header = flow_files.begin()?;
    let result = match read_header(flow_files.get_mut(), header) {
        HeaderStep::Nothing => None,
        HeaderStep::Failed(e) => Some(Err(e)),
        HeaderStep::Header(attributes, size) => Some(
            read_content(flow_files.get_mut(), size)
                .and_then(|content| with_content(attributes, size, content))
                .map_err(Error::from),
        ),
        HeaderStep::Read(_) => panic!("not finished"),
    };
    flow_files.settle(result)
}

#[test]
fn async_roundtrip_matches_sync() {
    for step in [1, 2, 7, 1000] {
        let mut source = Source { bytes: sample().to_bytes(), at: 0, step };
        let HeaderStep::Header(attributes, size) =
            read_header(&mut source, PendingHeader::required(Limits::unlimited()))
        else {
            panic!("expected a header");
        };
        assert_eq!(size, 5);
        assert_eq!(attributes.get("path"), Some("x"));
        assert_eq!(source.at, source.bytes.len() - 5, "not a byte of content was taken");
        let content = read_content(&mut source, size).unwrap();
        assert_eq!(with_content(attributes, size, content).unwrap(), sample());
    }
}

#[test]
fn flow_files_async_reads_all_and_fuses_after_error() {
    let mut bytes = sample().to_bytes();
    bytes.extend(sample().to_bytes());
    bytes.extend_from_slice(b"garbage");
    let mut flow_files = FlowFilesAsync::new(Source { bytes, at: 0, step: 3 });
    assert_eq!(next(&mut flow_files), Some(Ok(sample())));
    assert_eq!(next(&mut flow_files), Some(Ok(sample())));
    assert!(matches!(next(&mut flow_files), Some(Err(Error::InvalidMagic(_)))));
    assert!(next(&mut flow_files).is_none());
    assert!(flow_files.begin().is_none());
}

#[test]
fn async_limits_reject_oversized_attributes() {
    let limits = Limits::recommended().with_max_attribute_len(Some(3));
    let mut flow_files = FlowFilesAsync::with_limits(Source { bytes: sample().to_bytes(), at: 0, step: 9 }, limits);
    assert_eq!(
        next(&mut flow_files),
        Some(Err(Error::AttributeTooLong { len: 4, limit: 3 }))
    );
}

#[test]
fn async_limits_reject_an_oversized_declared_content_size() {
    let limits = Limits::recommended().with_max_content_len(Some(4));
    let mut flow_files = FlowFilesAsync::with_limits(Source { bytes: sample().to_bytes(), at: 0, step: 9 }, limits);
    assert_eq!(
        next(&mut flow_files),
        Some(Err(Error::ContentTooLarge { size: 5, limit: 4 }))
    );
}

#[test]
fn async_readers_report_truncation_as_a_size_mismatch() {
    let mut bytes = sample().to_bytes();
    bytes.truncate(bytes.len() - 2);
    let mut flow_files = FlowFilesAsync::new(Source { bytes, at: 0, step: 4 });
    assert_eq!(
        next(&mut flow_files),
        Some(Err(Error::SizeMismatch { expected: 5, actual: 3 }))
    );
}

#[test]
fn an_empty_stream_is_no_error_where_a_flow_file_is_optional() {
    let mut flow_files = FlowFilesAsync::new(Source { bytes: Vec::new(), at: 0, step: 1 });
    assert!(next(&mut flow_files).is_none());

    let step = PendingHeader::required(Limits::unlimited()).step(ReadEvent::End);
    assert!(matches!(step, HeaderStep::Failed(Error::Io(e)) if e.kind() == ErrorKind::UnexpectedEof));
    let gone = || IoError::new(ErrorKind::ConnectionReset, "gone");
    let step = PendingHeader::next(Limits::unlimited()).step(ReadEvent::Failed(gone()));
    assert!(matches!(step, HeaderStep::Failed(Error::Io(e)) if e == gone()));
}

#[test]
fn a_header_that_is_cut_short_says_where() {
    let bytes = sample().to_bytes();
    let message = |cut: usize| {
        let mut source = Source { bytes: bytes[..cut].to_vec(), at: 0, step: 5 };
        match read_header(&mut source, PendingHeader::required(Limits::unlimited())) {
            HeaderStep::Failed(Error::Io(e)) => {
                assert_eq!(e.kind(), ErrorKind::UnexpectedEof);
                e.message()
            }
            other => panic!("{other:?}"),
        }
    };
    // In the magic, the count, the first key's length and the content size.
    for cut in [0, 3, 8, 10, bytes.len() - 5 - 1] {
        assert_eq!(message(cut), "early eof", "{cut}");
    }
    // Before and inside the four bytes of `path`.
    for cut in [17, 19] {
        assert_eq!(&bytes[17..21], b"path");
        assert_eq!(message(cut), "attribute truncated", "{cut}");
    }
}

#[test]
fn a_content_is_read_step_by_step() {
    let content = PendingContent::new(3);
    let again = ReadEvent::Failed(IoError::new(ErrorKind::Interrupted, "again"));
    let ContentStep::Read(content) = content.step(again) else {
        panic!("an interruption is no end");
    };
    let ContentStep::Give(bytes, content) = content.step(ReadEvent::Bytes(b"ab".to_vec())) else {
        panic!("expected the bytes");
    };
    assert_eq!(bytes, b"ab");
    assert_eq!(content.limit(), 1);
    let ContentStep::End(Err(err)) = content.step(ReadEvent::End) else {
        panic!("a byte is missing");
    };
    assert!(matches!(err.carried(), Some(Error::SizeMismatch { expected: 3, actual: 2 })));

    let step = PendingContent::new(0).step(ReadEvent::End);
    assert!(matches!(step, ContentStep::End(Ok(0))));
    let gone = || IoError::new(ErrorKind::ConnectionReset, "gone");
    let step = PendingContent::new(3).step(ReadEvent::Failed(gone()));
    assert!(matches!(step, ContentStep::Failed(e) if e == gone()));
}

#[test]
fn a_failed_write_poisons_the_async_writer() {
    let mut writer = FlowFilesWriterAsync::new(());
    assert!(writer.guard().is_ok());
    assert_eq!(writer.settle(Ok(5)), Ok(5));
    assert_eq!(writer.count(), 1);
    let gone = || IoError::new(ErrorKind::ConnectionReset, "gone");
    assert_eq!(writer.settle(Err(gone())), Err(gone()));
    assert!(writer.is_poisoned());
    assert_eq!(writer.count(), 1);
    let err = writer.guard().unwrap_err();
    assert_eq!(err.kind(), ErrorKind::BrokenPipe);
    assert!(matches!(err.carried(), Some(Error::WriterPoisoned)));
}
