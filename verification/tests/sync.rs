use nififf3::io::read_all;
use nififf3::{
    ByteReader, Error, ErrorKind, FlowFile, FlowFiles, FlowFilesReader, FlowFilesWriter, IoError, Limits, Reader,
    Writer,
};

fn is_poisoned_error(err: &IoError) -> bool {
    err.kind() == ErrorKind::BrokenPipe && matches!(err.carried(), Some(Error::WriterPoisoned))
}

fn sample_flow_file() -> FlowFile<Vec<u8>> {
    FlowFile::builder()
        .attribute("a", "b")
        .attribute("path", "x")
        .content(b"hello".to_vec())
}

fn sample_bytes() -> Vec<u8> {
    let mut v = Vec::new();
    v.extend_from_slice(b"NiFiFF3");
    v.extend_from_slice(&[0x00, 0x02]);
    v.extend_from_slice(&[0x00, 0x01]);
    v.extend_from_slice(b"a");
    v.extend_from_slice(&[0x00, 0x01]);
    v.extend_from_slice(b"b");
    v.extend_from_slice(&[0x00, 0x04]);
    v.extend_from_slice(b"path");
    v.extend_from_slice(&[0x00, 0x01]);
    v.extend_from_slice(b"x");
    v.extend_from_slice(&[0, 0, 0, 0, 0, 0, 0, 5]);
    v.extend_from_slice(b"hello");
    v
}

fn numbered(n: &str, content: &[u8]) -> Vec<u8> {
    FlowFile::builder().attribute("n", n).content(content.to_vec()).to_bytes()
}

fn count_all(bytes: &[u8], limits: Limits) -> usize {
    let mut flow_files = FlowFiles::with_limits(ByteReader::new(bytes), limits);
    let mut count = 0;
    while flow_files.next().is_some() {
        count += 1;
    }
    count
}

#[test]
fn serializes_to_golden_bytes() {
    assert_eq!(sample_flow_file().to_bytes(), sample_bytes());
}

#[test]
fn from_bytes_roundtrip() {
    let parsed = FlowFile::from_bytes(&sample_bytes()).unwrap();
    assert_eq!(parsed.size(), 5);
    assert_eq!(parsed.attributes().len(), 2);
    assert_eq!(parsed.attributes().get("a"), Some("b"));
    assert_eq!(parsed.attributes().get("path"), Some("x"));
    assert_eq!(parsed.content().as_slice(), b"hello");
}

#[test]
fn parse_is_lazy_and_limits_content() {
    let bytes = sample_bytes();
    let flow_file = FlowFile::parse(ByteReader::new(&bytes)).unwrap();
    assert_eq!(flow_file.size(), 5);
    let flow_file = flow_file.into_memory().unwrap();
    assert_eq!(flow_file.content().as_slice(), b"hello");
}

#[test]
fn write_to_matches_to_bytes() {
    let flow_file = sample_flow_file().into_reader();
    let mut out: Vec<u8> = Vec::new();
    let copied = flow_file.write_to(&mut out).unwrap();
    assert_eq!(copied, 5);
    assert_eq!(out, sample_bytes());
}

#[test]
fn write_bytes_to_matches_write_to() {
    let flow_file = sample_flow_file();

    let mut buffered: Vec<u8> = Vec::new();
    let written = flow_file.write_bytes_to(&mut buffered).unwrap();
    assert_eq!(written, 5, "content bytes, as `write_to` reports");

    let mut streamed: Vec<u8> = Vec::new();
    flow_file.into_reader().write_to(&mut streamed).unwrap();
    assert_eq!(buffered, streamed);
    assert_eq!(buffered, sample_bytes());
}

#[test]
fn parse_next_reads_concatenated_flow_files() {
    let mut bytes = sample_bytes();
    bytes.extend_from_slice(&sample_bytes());
    let mut reader = ByteReader::new(&bytes);
    let mut count = 0;
    while let Some(flow_file) = FlowFile::parse_next(&mut reader).unwrap() {
        let flow_file = flow_file.into_memory().unwrap();
        assert_eq!(flow_file.content().as_slice(), b"hello");
        count += 1;
    }
    assert_eq!(count, 2);
}

#[test]
fn skip_content_walks_a_stream_without_reading_it() {
    let mut bytes = sample_bytes();
    bytes.extend_from_slice(&sample_bytes());

    let mut reader = ByteReader::new(&bytes);
    let mut count = 0;
    while let Some(flow_file) = FlowFile::parse_next(&mut reader).unwrap() {
        assert_eq!(flow_file.attribute("path"), Some("x"));
        assert_eq!(flow_file.skip_content().unwrap(), 5);
        count += 1;
    }
    assert_eq!(count, 2);
}

fn envelope_and_second() -> Vec<u8> {
    let inner = FlowFile::builder()
        .attribute("who", "inner")
        .content(b"payload".to_vec())
        .to_bytes();
    let mut bytes = FlowFile::builder().attribute("who", "envelope").content(inner).to_bytes();
    bytes.extend(FlowFile::builder().attribute("who", "second").content(Vec::new()).to_bytes());
    bytes
}

#[test]
fn dropping_content_unread_reparses_the_content_itself() {
    let bytes = envelope_and_second();

    let mut reader = ByteReader::new(&bytes);
    let mut seen = Vec::new();
    while let Ok(Some(flow_file)) = FlowFile::parse_next(&mut reader) {
        seen.push(flow_file.attribute("who").unwrap().to_string());
    }
    assert_eq!(seen, ["envelope", "inner"]);

    let mut reader = ByteReader::new(&bytes);
    let mut seen = Vec::new();
    while let Some(flow_file) = FlowFile::parse_next(&mut reader).unwrap() {
        seen.push(flow_file.attribute("who").unwrap().to_string());
        flow_file.skip_content().unwrap();
    }
    assert_eq!(seen, ["envelope", "second"]);
}

#[test]
fn the_streaming_reader_positions_the_stream_however_much_is_read() {
    let mut bytes = numbered("1", b"aaaa");
    bytes.extend(numbered("2", b"bbbb"));
    bytes.extend(numbered("3", b"cccc"));

    // Read nothing at all.
    let mut flow_files = FlowFilesReader::new(ByteReader::new(&bytes));
    let mut seen = Vec::new();
    while let Some(flow_file) = flow_files.next().unwrap() {
        seen.push(flow_file.attribute("n").unwrap().to_string());
    }
    assert_eq!(seen, ["1", "2", "3"]);

    // Read one byte of each, leaving the rest.
    let mut flow_files = FlowFilesReader::new(ByteReader::new(&bytes));
    let mut seen = Vec::new();
    while let Some(mut flow_file) = flow_files.next().unwrap() {
        let byte = flow_file.content_mut().read(1).unwrap();
        assert_eq!(byte.len(), 1);
        seen.push((flow_file.attribute("n").unwrap().to_string(), byte[0]));
    }
    assert_eq!(
        seen,
        [("1".into(), b'a'), ("2".into(), b'b'), ("3".into(), b'c')] as [(String, u8); 3]
    );

    // Read all of it.
    let mut flow_files = FlowFilesReader::new(ByteReader::new(&bytes));
    let mut seen = Vec::new();
    while let Some(flow_file) = flow_files.next().unwrap() {
        seen.push(flow_file.into_memory().unwrap().into_content());
    }
    assert_eq!(seen, [b"aaaa".to_vec(), b"bbbb".to_vec(), b"cccc".to_vec()]);
}

#[test]
fn the_streaming_reader_is_not_fooled_by_nested_flow_files() {
    let bytes = envelope_and_second();

    let mut flow_files = FlowFilesReader::new(ByteReader::new(&bytes));
    let mut seen = Vec::new();
    while let Some(flow_file) = flow_files.next().unwrap() {
        seen.push(flow_file.attribute("who").unwrap().to_string());
    }
    assert_eq!(seen, ["envelope", "second"]);
}

#[test]
fn the_streaming_reader_reports_a_truncated_content_it_skipped() {
    let mut bytes = numbered("1", b"aaaa");
    bytes.truncate(bytes.len() - 2);

    let mut flow_files = FlowFilesReader::new(ByteReader::new(&bytes));
    assert!(flow_files.next().unwrap().is_some(), "the header is intact");
    assert!(
        matches!(flow_files.next(), Err(Error::SizeMismatch { expected: 4, actual: 2 })),
        "the skip must notice the content ran out"
    );
    assert!(flow_files.next().unwrap().is_none(), "fused after the error");
}

#[test]
fn flow_files_iterator_fuses_after_error() {
    let mut bytes = sample_bytes();
    bytes.extend_from_slice(b"garbage");
    let mut iter = FlowFiles::new(ByteReader::new(&bytes));
    assert!(iter.next().unwrap().is_ok());
    assert!(matches!(iter.next(), Some(Err(Error::InvalidMagic(_)))));
    assert!(iter.next().is_none());
    assert!(iter.next().is_none());
}

#[test]
fn the_reader_comes_back_out_positioned_after_the_flow_files() {
    let mut bytes = sample_bytes();
    bytes.extend_from_slice(b"and then something else");

    let mut flow_files = FlowFiles::new(ByteReader::new(&bytes));
    assert!(flow_files.next().unwrap().is_ok());
    assert_eq!(flow_files.get_ref().rest().len(), b"and then something else".len());

    let trailer = read_all(&mut flow_files.into_inner()).unwrap();
    assert_eq!(trailer, b"and then something else");
}

#[test]
fn bad_magic_is_rejected() {
    let mut bytes = sample_bytes();
    bytes[0] = b'X';
    assert!(matches!(FlowFile::from_bytes(&bytes), Err(Error::InvalidMagic(_))));
}

#[test]
fn truncated_content_is_a_size_mismatch() {
    let bytes = sample_bytes();
    let truncated = &bytes[..bytes.len() - 2];
    assert!(matches!(
        FlowFile::from_bytes(truncated),
        Err(Error::SizeMismatch { expected: 5, actual: 3 })
    ));
    let parsed = FlowFile::parse(ByteReader::new(truncated)).unwrap();
    let err = parsed.into_memory().unwrap_err();
    assert_eq!(err.kind(), ErrorKind::UnexpectedEof);
    assert!(matches!(
        err.carried(),
        Some(Error::SizeMismatch { expected: 5, actual: 3 })
    ));
}

#[test]
fn readers_report_truncation_the_same_way_from_bytes_does() {
    let bytes = sample_bytes();
    let truncated = &bytes[..bytes.len() - 2];

    for err in [
        FlowFile::from_bytes(truncated).unwrap_err(),
        FlowFiles::new(ByteReader::new(truncated)).next().unwrap().unwrap_err(),
    ] {
        assert!(matches!(err, Error::SizeMismatch { expected: 5, actual: 3 }), "{err:?}");
    }
}

struct Failing;

impl Reader for Failing {
    fn read(&mut self, _: usize) -> Result<Vec<u8>, IoError> {
        Err(IoError::new(ErrorKind::ConnectionReset, "gone"))
    }
}

#[test]
fn readers_still_report_plain_io_errors_as_io() {
    let err = FlowFiles::new(Failing).next().unwrap().unwrap_err();
    assert!(
        matches!(err, Error::Io(ref e) if e.kind() == ErrorKind::ConnectionReset),
        "{err:?}"
    );
}

#[test]
fn limits_reject_an_oversized_declared_content_size() {
    let bytes = sample_flow_file().to_bytes();
    let limits = Limits::recommended().with_max_content_len(Some(4));

    assert!(matches!(
        FlowFile::parse_with_limits(ByteReader::new(&bytes), limits),
        Err(Error::ContentTooLarge { size: 5, limit: 4 })
    ));
    // The check is on the declared size, so a header alone is enough to trip
    // it.
    let header_only = &bytes[..bytes.len() - 5];
    assert!(matches!(
        FlowFile::parse_with_limits(ByteReader::new(header_only), limits),
        Err(Error::ContentTooLarge { size: 5, limit: 4 })
    ));
    assert!(FlowFile::parse_with_limits(ByteReader::new(&bytes), Limits::recommended()).is_ok());
}

/// A reader that yields so many bytes and then ends, so a flow file declaring
/// more than that is truncated part-way through its content.
struct Short(usize);

impl Reader for Short {
    fn read(&mut self, limit: usize) -> Result<Vec<u8>, IoError> {
        let n = self.0.min(limit);
        self.0 -= n;
        Ok(vec![b'x'; n])
    }
}

#[test]
fn a_failed_write_poisons_the_writer() {
    let mut out: Vec<u8> = Vec::new();
    let mut writer = FlowFilesWriter::new(&mut out);

    let err = writer
        .write(FlowFile::builder().attribute("n", "1").reader(Short(3), 10))
        .unwrap_err();
    assert_eq!(err.kind(), ErrorKind::UnexpectedEof);
    assert!(writer.is_poisoned());
    assert_eq!(writer.count(), 0, "the failed one does not count");

    let err = writer
        .write_bytes(&FlowFile::builder().attribute("n", "2").content(b"ok".to_vec()))
        .unwrap_err();
    assert!(is_poisoned_error(&err), "{err:?}");
    assert_eq!(writer.count(), 0);

    // Nothing was appended after the failure: the header plus the 3 bytes the
    // reader did produce, and not a byte more.
    let stream = writer.into_inner();
    assert_eq!(
        stream.len(),
        FlowFile::builder().attribute("n", "1").content(Vec::new()).to_bytes().len() + 3
    );
}

#[test]
fn a_healthy_writer_is_never_poisoned() {
    let mut out: Vec<u8> = Vec::new();
    let mut writer = FlowFilesWriter::new(&mut out);
    writer
        .write_bytes(&FlowFile::builder().content(b"first".to_vec()))
        .unwrap();
    writer
        .write(FlowFile::builder().reader(ByteReader::new(b"second"), 6))
        .unwrap();

    assert!(!writer.is_poisoned());
    assert_eq!(writer.count(), 2);
    assert_eq!(count_all(&out, Limits::unlimited()), 2);
}

/// A writer that records what it was asked to do, standing in for one that
/// buffers.
#[derive(Default)]
struct Recording {
    bytes: Vec<u8>,
    flushes: usize,
}

impl Writer for Recording {
    fn write_all(&mut self, bytes: &[u8]) -> Result<(), IoError> {
        self.bytes.extend_from_slice(bytes);
        Ok(())
    }

    fn flush(&mut self) -> Result<(), IoError> {
        self.flushes += 1;
        Ok(())
    }
}

#[test]
fn finish_flushes_and_into_inner_does_not() {
    let write_one = |writer: &mut FlowFilesWriter<Recording>| {
        writer
            .write_bytes(&FlowFile::builder().content(b"content".to_vec()))
            .unwrap();
    };

    let mut writer = FlowFilesWriter::new(Recording::default());
    write_one(&mut writer);
    let inner = writer.finish().unwrap();
    assert_eq!(inner.flushes, 1);
    assert_eq!(count_all(&inner.bytes, Limits::unlimited()), 1);

    let mut writer = FlowFilesWriter::new(Recording::default());
    write_one(&mut writer);
    assert_eq!(writer.into_inner().flushes, 0);
}

struct FlushFails;

impl Writer for FlushFails {
    fn write_all(&mut self, _: &[u8]) -> Result<(), IoError> {
        Ok(())
    }

    fn flush(&mut self) -> Result<(), IoError> {
        Err(IoError::new(ErrorKind::Other, "the device went away"))
    }
}

#[test]
fn a_failed_flush_poisons_the_writer() {
    let mut writer = FlowFilesWriter::new(FlushFails);
    writer
        .write_bytes(&FlowFile::builder().content(b"first".to_vec()))
        .unwrap();

    assert!(writer.flush().is_err());
    assert!(writer.is_poisoned());
    let err = writer
        .write_bytes(&FlowFile::builder().content(b"second".to_vec()))
        .unwrap_err();
    assert!(is_poisoned_error(&err), "{err:?}");
}

#[test]
fn from_bytes_limits_apply_to_the_header() {
    let bytes = sample_flow_file().to_bytes();

    assert!(matches!(
        FlowFile::from_bytes_with_limits(&bytes, Limits::recommended().with_max_attributes(Some(1))),
        Err(Error::TooManyAttributes { count: 2, limit: 1 })
    ));
    assert!(matches!(
        FlowFile::from_bytes_with_limits(&bytes, Limits::recommended().with_max_content_len(Some(4))),
        Err(Error::ContentTooLarge { size: 5, limit: 4 })
    ));
    assert!(FlowFile::from_bytes_with_limits(&bytes, Limits::recommended()).is_ok());
}

#[test]
fn content_mut_reads_incrementally_and_keeps_the_attributes() {
    let bytes = sample_bytes();
    let mut flow_file = FlowFile::parse(ByteReader::new(&bytes)).unwrap();

    let head = flow_file.content_mut().read(2).unwrap();
    assert_eq!(head, b"he");
    assert_eq!(flow_file.attributes().get("path"), Some("x"));

    assert_eq!(flow_file.size(), 5);
    let rest = read_all(flow_file.content_mut()).unwrap();
    assert_eq!(rest, b"llo");
}

#[test]
fn trailing_data_is_rejected() {
    let mut bytes = sample_bytes();
    bytes.push(0);
    assert!(matches!(FlowFile::from_bytes(&bytes), Err(Error::TrailingData(1))));
}

#[test]
fn truncated_header_is_an_io_error() {
    let bytes = sample_bytes();
    assert!(matches!(FlowFile::from_bytes(&bytes[..10]), Err(Error::Io(_))));
}

#[test]
fn limits_reject_excess_attribute_count() {
    let flow_file = FlowFile::builder()
        .attributes((0..10).map(|i| (format!("k{i}"), "v".to_string())).collect())
        .content(Vec::new());
    let bytes = flow_file.to_bytes();

    let limits = Limits::recommended().with_max_attributes(Some(5));
    assert!(matches!(
        FlowFile::parse_with_limits(ByteReader::new(&bytes), limits),
        Err(Error::TooManyAttributes { count: 10, limit: 5 })
    ));
    assert!(FlowFile::parse_with_limits(ByteReader::new(&bytes), Limits::recommended()).is_ok());
}

#[test]
fn limits_reject_an_oversized_header_in_total() {
    let bytes = FlowFile::builder()
        .attributes((0..10).map(|i| (format!("k{i}"), "v".repeat(100))).collect())
        .content(Vec::new())
        .to_bytes();

    let limits = Limits::unlimited().with_max_total_attribute_len(Some(256));
    assert!(matches!(
        FlowFile::parse_with_limits(ByteReader::new(&bytes), limits),
        Err(Error::HeaderTooLarge { limit: 256, .. })
    ));
    assert!(
        FlowFile::parse_with_limits(
            ByteReader::new(&bytes),
            Limits::unlimited()
                .with_max_attributes(Some(10))
                .with_max_attribute_len(Some(1024))
        )
        .is_ok()
    );
}

#[test]
fn limits_reject_oversized_attributes() {
    let bytes = FlowFile::builder()
        .attribute("key", "a value larger than the limit")
        .content(Vec::new())
        .to_bytes();

    let limits = Limits::recommended().with_max_attribute_len(Some(8));
    assert!(matches!(
        FlowFile::parse_with_limits(ByteReader::new(&bytes), limits),
        Err(Error::AttributeTooLong { limit: 8, .. })
    ));
}

#[test]
fn declared_length_beyond_input_fails_without_allocating() {
    let mut bytes = Vec::new();
    bytes.extend_from_slice(b"NiFiFF3");
    bytes.extend_from_slice(&[0x00, 0x01]);
    bytes.extend_from_slice(&[0xFF, 0xFF, 0xFF, 0xFF, 0xFF, 0x00]);
    bytes.extend_from_slice(b"tiny");
    let err = FlowFile::parse(ByteReader::new(&bytes)).unwrap_err();
    assert!(matches!(err, Error::Io(ref e) if e.kind() == ErrorKind::UnexpectedEof));
}

#[test]
fn invalid_utf8_attribute_is_rejected() {
    let mut bytes = Vec::new();
    bytes.extend_from_slice(b"NiFiFF3");
    bytes.extend_from_slice(&[0x00, 0x01]);
    bytes.extend_from_slice(&[0x00, 0x01, 0xFF]);
    bytes.extend_from_slice(&[0x00, 0x01, b'v']);
    bytes.extend_from_slice(&[0; 8]);
    let err = FlowFile::from_bytes(&bytes).unwrap_err();
    assert!(matches!(err, Error::InvalidAttribute(_)));
    let Error::InvalidAttribute(invalid) = &err else {
        panic!("not an attribute");
    };
    assert_eq!(invalid.bytes, [0xFF]);
    assert_eq!(
        err.message(),
        format!("attribute is not valid UTF-8: {}", String::from_utf8(vec![0xFF]).unwrap_err())
    );
}

#[test]
fn large_attribute_uses_extended_field_length() {
    let value = "v".repeat(70_000);
    let flow_file = FlowFile::builder().attribute("big", &value).content(Vec::new());
    let bytes = flow_file.to_bytes();
    let marker = [
        0x00, 0x03, b'b', b'i', b'g', 0xFF, 0xFF, 0x00, 0x01, 0x11, 0x70,
    ];
    assert!(bytes.windows(marker.len()).any(|w| w == marker));
    let parsed = FlowFile::from_bytes(&bytes).unwrap();
    assert_eq!(parsed.attributes().get("big"), Some(value.as_str()));
}

#[test]
fn empty_attributes_and_content() {
    let bytes = FlowFile::builder().content(Vec::new()).to_bytes();
    let mut expected = b"NiFiFF3".to_vec();
    expected.extend_from_slice(&[0x00, 0x00]);
    expected.extend_from_slice(&[0; 8]);
    assert_eq!(bytes, expected);
    let parsed = FlowFile::from_bytes(&bytes).unwrap();
    assert!(parsed.attributes().is_empty());
    assert_eq!(parsed.size(), 0);
}

/// A reader that is interrupted before every byte.
struct Interrupted {
    bytes: Vec<u8>,
    next: usize,
    ready: bool,
}

impl Reader for Interrupted {
    fn read(&mut self, limit: usize) -> Result<Vec<u8>, IoError> {
        self.ready = !self.ready;
        if self.ready {
            return Err(IoError::new(ErrorKind::Interrupted, "again"));
        }
        if self.next == self.bytes.len() || limit == 0 {
            return Ok(Vec::new());
        }
        self.next += 1;
        Ok(vec![self.bytes[self.next - 1]])
    }
}

#[test]
fn interruptions_are_tried_again() {
    let reader = Interrupted { bytes: sample_bytes(), next: 0, ready: false };
    let parsed = FlowFile::parse(reader).unwrap().into_memory().unwrap();
    assert_eq!(parsed, sample_flow_file());
}

/// A writer that takes only so much.
struct Full {
    bytes: Vec<u8>,
    room: usize,
}

impl Writer for Full {
    fn write_all(&mut self, bytes: &[u8]) -> Result<(), IoError> {
        let n = bytes.len().min(self.room);
        self.bytes.extend_from_slice(&bytes[..n]);
        self.room -= n;
        if n < bytes.len() {
            return Err(IoError::new(ErrorKind::WriteZero, "full"));
        }
        Ok(())
    }

    fn flush(&mut self) -> Result<(), IoError> {
        Ok(())
    }
}

#[test]
fn a_refused_write_leaves_what_was_taken_and_poisons() {
    for room in [0, 3, 20, 32] {
        let mut writer = FlowFilesWriter::new(Full { bytes: Vec::new(), room });
        let err = writer.write(sample_flow_file().into_reader()).unwrap_err();
        assert_eq!(err, IoError::new(ErrorKind::WriteZero, "full"));
        assert!(writer.is_poisoned());
        assert_eq!(writer.into_inner().bytes, sample_bytes()[..room]);
    }
}

#[test]
fn every_prefix_of_a_flow_file_is_refused() {
    let bytes = sample_bytes();
    for cut in 0..bytes.len() {
        match FlowFile::from_bytes(&bytes[..cut]) {
            Err(Error::Io(e)) => {
                assert!(cut < bytes.len() - 5);
                assert_eq!(e.kind(), ErrorKind::UnexpectedEof);
            }
            Err(Error::SizeMismatch { expected, actual }) => {
                assert!(cut >= bytes.len() - 5);
                assert_eq!(expected, 5);
                assert_eq!(actual as usize, cut - (bytes.len() - 5));
            }
            other => panic!("{cut}: {other:?}"),
        }
    }
}

#[test]
fn from_reader_takes_one_whole_flow_file_and_stops_after_it() {
    let mut bytes = numbered("1", b"first");
    bytes.extend(numbered("2", b""));
    bytes.extend(b"rest");
    let mut reader = ByteReader::new(&bytes);

    let first = FlowFile::from_reader(&mut reader).unwrap();
    assert_eq!(first.attribute("n"), Some("1"));
    assert_eq!(first.content().as_slice(), b"first");

    let second = FlowFile::from_reader(&mut reader).unwrap();
    assert_eq!(second.attribute("n"), Some("2"));
    assert_eq!(second.size(), 0);

    assert_eq!(read_all(&mut reader).unwrap(), b"rest");
}

#[test]
fn from_reader_reports_truncated_content_unwrapped() {
    let bytes = numbered("1", b"first");
    let mut reader = ByteReader::new(&bytes[..bytes.len() - 2]);
    assert!(matches!(
        FlowFile::from_reader(&mut reader),
        Err(Error::SizeMismatch { expected: 5, actual: 3 })
    ));
    let mut reader = ByteReader::new(&[]);
    assert!(matches!(FlowFile::from_reader(&mut reader), Err(Error::Io(err)) if err.kind() == ErrorKind::UnexpectedEof));
}

#[test]
fn from_reader_applies_the_limits() {
    let bytes = sample_bytes();
    let refused = FlowFile::from_reader_with_limits(&mut ByteReader::new(&bytes), Limits::unlimited().with_max_attributes(Some(1)));
    assert!(matches!(refused, Err(Error::TooManyAttributes { count: 2, limit: 1 })));
    let refused =
        FlowFile::from_reader_with_limits(&mut ByteReader::new(&bytes), Limits::unlimited().with_max_content_len(Some(4)));
    assert!(matches!(refused, Err(Error::ContentTooLarge { size: 5, limit: 4 })));
    let taken =
        FlowFile::from_reader_with_limits(&mut ByteReader::new(&bytes), Limits::unlimited().with_max_content_len(Some(5)));
    assert_eq!(taken.unwrap(), sample_flow_file());
}

#[test]
fn a_repeated_key_is_kept_once_and_serializes_shorter() {
    let mut bytes = b"NiFiFF3\x00\x02".to_vec();
    for value in [b'1', b'2'] {
        bytes.extend([0, 1, b'k', 0, 1, value]);
    }
    bytes.extend([0, 0, 0, 0, 0, 0, 0, 2]);
    bytes.extend(b"hi");

    let parsed = FlowFile::from_bytes(&bytes).unwrap();
    assert_eq!(parsed.attributes().len(), 1);
    assert_eq!(parsed.attribute("k"), Some("2"));
    let again = parsed.to_bytes();
    assert_eq!(again.len(), bytes.len() - 6);
    assert_eq!(FlowFile::from_bytes(&again).unwrap(), parsed);
}

#[test]
fn consuming_a_borrowed_content_leaves_the_stream_at_the_next_flow_file() {
    let mut bytes = Vec::new();
    for (n, content) in [("1", &b"first"[..]), ("2", b"second"), ("3", b"third"), ("4", b"")] {
        bytes.extend(numbered(n, content));
    }
    let mut reader = ByteReader::new(&bytes);

    let skipped = FlowFile::parse_next(&mut reader).unwrap().unwrap().skip_borrowed();
    assert_eq!(skipped, Ok(5));

    let read = FlowFile::parse_next(&mut reader).unwrap().unwrap().read_borrowed().unwrap();
    assert_eq!(read.content().as_slice(), b"second");

    let mut out: Vec<u8> = Vec::new();
    let written = FlowFile::parse_next(&mut reader).unwrap().unwrap().write_borrowed_to(&mut out);
    assert_eq!(written, Ok(5));
    assert_eq!(out, numbered("3", b"third"));

    let last = FlowFile::parse_next(&mut reader).unwrap().unwrap();
    assert_eq!(last.attribute("n"), Some("4"));
    assert_eq!(last.skip_borrowed(), Ok(0));
    assert!(FlowFile::parse_next(&mut reader).unwrap().is_none());
}

#[test]
fn consuming_a_borrowed_content_reports_a_truncation() {
    let bytes = numbered("1", b"first");
    let cut = &bytes[..bytes.len() - 2];
    let is_cut = |err: IoError| matches!(err.carried(), Some(Error::SizeMismatch { expected: 5, actual: 3 }));

    let mut reader = ByteReader::new(cut);
    assert!(is_cut(FlowFile::parse_next(&mut reader).unwrap().unwrap().skip_borrowed().unwrap_err()));
    let mut reader = ByteReader::new(cut);
    assert!(is_cut(FlowFile::parse_next(&mut reader).unwrap().unwrap().read_borrowed().unwrap_err()));
    let mut reader = ByteReader::new(cut);
    let mut out: Vec<u8> = Vec::new();
    let err = FlowFile::parse_next(&mut reader).unwrap().unwrap().write_borrowed_to(&mut out).unwrap_err();
    assert!(is_cut(err));
    assert_eq!(out, cut, "what there was has been written");
}
