use nififf3::async_io::ReadEvent;
use nififf3::flowfiles::header::write_flowfile_header;
use nififf3::flowfiles::iterator::{
    after_content, check_content_type, content_length, field_length_encoded_size, single_flow_file,
    string_encoded_size, FlowFileIteratorState, StreamAction, StreamEvent, TailStep,
};
use nififf3::flowfiles::parser::{HeaderParser, ParseStep};
use nififf3::flowfiles::{
    parse_flow_file_from_reader, FlowFile, FlowFileEncoder, FlowFileHeader, FlowFileIterator, FlowFileParsingError,
    OutputFlowFile, StreamedFlowFile, StreamedFlowFiles,
};
use nififf3::io::read_all;
use nififf3::{Attributes, ByteReader, Cursor, ErrorKind, IoError, Reader, Take, Writer};

fn encode_flow_file(attributes: &[(&str, &str)], content: &[u8]) -> Vec<u8> {
    let mut buf = Vec::new();
    buf.extend(b"NiFiFF3");

    let n_attrs = attributes.len() as u16;
    buf.extend_from_slice(&n_attrs.to_be_bytes());

    for (key, value) in attributes {
        let key_bytes = key.as_bytes();
        let value_bytes = value.as_bytes();

        buf.extend_from_slice(&(key_bytes.len() as u16).to_be_bytes());
        buf.extend_from_slice(key_bytes);

        buf.extend_from_slice(&(value_bytes.len() as u16).to_be_bytes());
        buf.extend_from_slice(value_bytes);
    }

    buf.extend_from_slice(&(content.len() as u64).to_be_bytes());
    buf.extend_from_slice(content);

    buf
}

/// Everything that a stream yields, driven over bytes in memory.
fn run(stream: &mut StreamedFlowFiles, data: &[u8]) -> Vec<Result<(Attributes, u64), FlowFileParsingError>> {
    let mut seen = Vec::new();
    let mut at = 0usize;
    let mut content = 0u64;
    let mut action = stream.poll_next();
    loop {
        action = match action {
            StreamAction::Parse => match parse_flow_file_from_reader(ByteReader::new(&data[at..])) {
                Ok((None, _)) => stream.step(StreamEvent::Ended),
                Ok((Some(ff), total)) => {
                    at = data.len() - ff.contents.inner.rest().len();
                    content = ff.len();
                    let action = stream.step(StreamEvent::Parsed(total));
                    if action == StreamAction::Yield {
                        seen.push(Ok((ff.attributes().clone(), ff.len())));
                    }
                    action
                }
                Err((e, _)) => stream.step(StreamEvent::ParseFailed(e)),
            },
            StreamAction::Yield => stream.poll_next(),
            StreamAction::AwaitReturn => stream.step(StreamEvent::Returned(content)),
            StreamAction::Drain => {
                at = data.len().min(at + content as usize);
                stream.step(StreamEvent::Drained)
            }
            StreamAction::YieldError(e) => {
                seen.push(Err(e));
                stream.poll_next()
            }
            StreamAction::End => return seen,
        };
    }
}

#[test]
fn field_length_encoded_size_small() {
    assert_eq!(field_length_encoded_size(0), 2);
    assert_eq!(field_length_encoded_size(u32::from(u16::MAX - 1)), 2);
}

#[test]
fn field_length_encoded_size_large() {
    assert_eq!(field_length_encoded_size(u16::MAX.into()), 6);
    assert_eq!(field_length_encoded_size(u32::from(u16::MAX) + 1), 6);
}

#[test]
fn strings_take_their_bytes_and_their_length() {
    assert_eq!(string_encoded_size(""), 2);
    assert_eq!(string_encoded_size("é→"), 7);
    assert_eq!(string_encoded_size(&"v".repeat(0xFFFF)), 0xFFFF + 6);
}

#[test]
fn parse_empty_flow_file() {
    let data = encode_flow_file(&[], b"");
    let Ok((result, read_count)) = parse_flow_file_from_reader(ByteReader::new(&data)) else {
        panic!("expected ok result");
    };

    let ff = result.unwrap();
    assert_eq!(ff.header().size(), 0);
    assert!(ff.is_empty());
    assert!(ff.attributes().is_empty());
    assert_eq!(read_count, 7 + 2 + 8);
}

#[test]
fn parse_flow_file_with_attributes() {
    let data = encode_flow_file(
        &[("filename", "test.txt"), ("mime.type", "text/plain")],
        b"content",
    );
    let Ok((result, count)) = parse_flow_file_from_reader(ByteReader::new(&data)) else {
        panic!("expected ok result");
    };

    let ff = result.unwrap();
    assert_eq!(ff.header().size(), 7);
    assert_eq!(ff.attributes().len(), 2);
    assert_eq!(ff.attributes().get("filename"), Some("test.txt"));
    assert_eq!(ff.attributes().get("mime.type"), Some("text/plain"));
    assert_eq!(count as usize, data.len());
}

#[test]
fn parse_flow_file_with_content() {
    let content = b"Hello, World!";
    let data = encode_flow_file(&[], content);
    let Ok((result, _)) = parse_flow_file_from_reader(ByteReader::new(&data)) else {
        panic!("expected ok result");
    };

    let mut ff = result.unwrap();
    let buf = read_all(ff.contents()).unwrap();
    assert_eq!(buf, content);
}

#[test]
fn parse_bad_magic_bytes() {
    let mut data = Vec::from(b"NOTVALID");
    data.extend_from_slice(&[0u8; 100]);

    let Err((err, left)) = parse_flow_file_from_reader(ByteReader::new(&data)) else {
        panic!("expected an error");
    };
    match err {
        FlowFileParsingError::BadMagicBytes(bytes) => {
            assert_eq!(&bytes, b"NOTVALI");
        }
        other => panic!("expected BadMagicBytes, got {other:?}"),
    }
    assert_eq!(left.rest().len(), 101);
}

#[test]
fn parse_truncated_magic_bytes() {
    match parse_flow_file_from_reader(ByteReader::new(&[0x00; 3])) {
        Ok((None, 0)) => (),
        Ok((_, count)) => panic!("unexpected result, count {count}"),
        Err((err, _)) => panic!("expected ok, got err: {}", err.message()),
    }
}

#[test]
fn parse_empty_eof_returns_none() {
    let Ok((result, read_count)) = parse_flow_file_from_reader(ByteReader::new(&[])) else {
        panic!("expected an ok result");
    };

    assert!(result.is_none());
    assert_eq!(read_count, 0);
}

#[test]
fn parse_truncated_attributes() {
    let mut data = Vec::from(b"NiFiFF3".as_slice());
    data.extend_from_slice(&2u16.to_be_bytes());

    let Err((err, _)) = parse_flow_file_from_reader(ByteReader::new(&data)) else {
        panic!("expected an error");
    };
    match err {
        FlowFileParsingError::Malformed { context, .. } => {
            assert!(context.contains("attribute"));
        }
        _ => panic!("expected Malformed error"),
    }
}

#[test]
fn a_malformed_header_names_the_stage() {
    let whole = encode_flow_file(&[("key", "é")], b"");
    let eof = "unexpected end of file";
    for (cut, context) in [
        (8, "Reading number of attributes in flowfile"),
        (9, "Reading key from attribute"),
        (10, "Reading key from attribute"),
        // A key that ends early is noticed by what is read next.
        (12, "Reading value from attribute"),
        (14, "Reading value from attribute"),
        (16, "Reading content length as u64"),
        (18, "Reading content length as u64"),
        (25, "Reading content length as u64"),
    ] {
        let Err((err, left)) = parse_flow_file_from_reader(ByteReader::new(&whole[..cut])) else {
            panic!("{cut}: expected an error");
        };
        assert_eq!(
            err,
            FlowFileParsingError::Malformed { context, io_error: IoError::new(ErrorKind::UnexpectedEof, eof) },
            "{cut}"
        );
        assert_eq!(err.message(), format!("Malformed flowfile: {context}: {eof}"));
        assert_eq!(err.status(), 400);
        assert!(left.rest().is_empty());
    }
    // A value cut inside a character is not text.
    let Err((err, _)) = parse_flow_file_from_reader(ByteReader::new(&whole[..17])) else {
        panic!("expected an error");
    };
    let reason = String::from_utf8(vec![0xC3]).unwrap_err().to_string();
    assert_eq!(
        err,
        FlowFileParsingError::Malformed {
            context: "Reading value from attribute",
            io_error: IoError::new(ErrorKind::InvalidData, &reason),
        }
    );
}

/// A reader that fails after some bytes.
struct Failing {
    bytes: Vec<u8>,
    kind: ErrorKind,
}

impl Reader for Failing {
    fn read(&mut self, limit: usize) -> Result<Vec<u8>, IoError> {
        if self.bytes.is_empty() {
            return Err(IoError::new(self.kind, "gone"));
        }
        let n = limit.min(self.bytes.len());
        Ok(self.bytes.drain(..n).collect())
    }
}

#[test]
fn a_failing_reader_is_malformed_where_it_fails() {
    let whole = encode_flow_file(&[("key", "value")], b"");
    for (cut, context) in [
        (3, "Could not read 7 bytes to check for flow file magic bytes"),
        (8, "Reading number of attributes in flowfile"),
        (12, "Reading key from attribute"),
        (17, "Reading value from attribute"),
        (22, "Reading content length as u64"),
    ] {
        let reader = Failing { bytes: whole[..cut].to_vec(), kind: ErrorKind::ConnectionReset };
        let Err((err, _)) = parse_flow_file_from_reader(reader) else {
            panic!("{cut}: expected an error");
        };
        assert_eq!(
            err,
            FlowFileParsingError::Malformed { context, io_error: IoError::new(ErrorKind::ConnectionReset, "gone") }
        );
    }
    let reader = Failing { bytes: whole[..3].to_vec(), kind: ErrorKind::UnexpectedEof };
    assert!(matches!(parse_flow_file_from_reader(reader), Ok((None, 0))));
}

#[test]
fn a_parser_never_asks_for_bytes_after_the_header() {
    let data = encode_flow_file(&[("a", ""), ("", "b")], b"content");
    let header = data.len() - 7;
    let mut parser = HeaderParser::new();
    let mut at = 0;
    loop {
        let n = parser.wanted();
        assert!(at + n <= header);
        match parser.step(ReadEvent::Bytes(data[at..at + 1].to_vec())) {
            ParseStep::Read(next) => {
                parser = next;
                at += 1;
            }
            ParseStep::Header(found, count) => {
                assert_eq!(at + 1, header);
                assert_eq!(count as usize, data.len());
                assert_eq!(found.size(), 7);
                assert_eq!(found.attributes().get(""), Some("b"));
                assert_eq!(found.attributes().get("a"), Some(""));
                return;
            }
            other => panic!("{other:?}"),
        }
    }
}

#[test]
fn a_count_that_does_not_fit_is_capped() {
    let mut data = Vec::from(b"NiFiFF3".as_slice());
    data.extend_from_slice(&[0, 0]);
    data.extend_from_slice(&[0xFF; 8]);
    let Ok((Some(ff), count)) = parse_flow_file_from_reader(ByteReader::new(&data)) else {
        panic!("expected a flow file");
    };
    assert_eq!(ff.len(), u64::MAX);
    assert_eq!(count, u64::MAX);
}

#[test]
fn iterator_empty_stream() {
    let mut stream = StreamedFlowFiles::new();
    assert!(run(&mut stream, &[]).is_empty());
    assert!(stream.is_empty());
}

#[test]
fn iterator_with_content_length_zero_is_empty() {
    let stream = StreamedFlowFiles::new_with_content_length(0);
    assert!(stream.is_empty());
}

#[test]
fn iterator_single_flow_file() {
    let data = encode_flow_file(&[("key", "value")], b"body");
    let seen = run(&mut StreamedFlowFiles::new(), &data);
    assert_eq!(seen.len(), 1);
    let (attributes, _) = seen[0].as_ref().unwrap();
    assert_eq!(attributes.get("key"), Some("value"));
}

#[test]
fn iterator_multiple_flow_files() {
    let mut combined = encode_flow_file(&[("num", "1")], b"first");
    combined.extend(encode_flow_file(&[("num", "2")], b"second"));

    for mut stream in [
        StreamedFlowFiles::new(),
        StreamedFlowFiles::new_with_content_length(combined.len() as u64),
    ] {
        let seen = run(&mut stream, &combined);
        assert_eq!(seen.len(), 2);
        assert_eq!(seen[0].as_ref().unwrap().0.get("num"), Some("1"));
        assert_eq!(seen[1].as_ref().unwrap().0.get("num"), Some("2"));
        assert!(stream.is_empty());
    }
}

#[test]
fn iterator_content_length_mismatch() {
    let data = encode_flow_file(&[], b"extra content after header");
    let mut stream = StreamedFlowFiles::new_with_content_length(9);

    let seen = run(&mut stream, &data);
    assert_eq!(
        seen,
        [Err(FlowFileParsingError::ContentLengthLengthMismatch {
            content_length: 9,
            flow_file_required: data.len() as u64,
        })]
    );
    assert_eq!(
        seen[0].as_ref().unwrap_err().message(),
        "Content length of 9 less than flow file header indicated 43"
    );
}

#[test]
fn an_error_ends_one_kind_of_stream_and_not_the_other() {
    let mut stream = StreamedFlowFiles::new();
    assert_eq!(stream.poll_next(), StreamAction::Parse);
    let bad = || FlowFileParsingError::BadMagicBytes([0; 7]);
    assert_eq!(stream.step(StreamEvent::ParseFailed(bad())), StreamAction::YieldError(bad()));
    assert_eq!(stream.poll_next(), StreamAction::End);

    let mut stream = FlowFileIterator::new();
    assert_eq!(stream.poll_next(), StreamAction::Parse);
    assert_eq!(stream.step(StreamEvent::ParseFailed(bad())), StreamAction::YieldError(bad()));
    assert_eq!(stream.poll_next(), StreamAction::Parse);
    assert_eq!(stream.step(StreamEvent::Parsed(30)), StreamAction::Yield);
    assert_eq!(stream.poll_next(), StreamAction::AwaitReturn);
    assert_eq!(stream.step(StreamEvent::Returned(3)), StreamAction::Drain);
    assert_eq!(stream.poll_next(), StreamAction::Drain);
    assert_eq!(stream.step(StreamEvent::Drained), StreamAction::Parse);
    assert_eq!(stream.step(StreamEvent::Ended), StreamAction::End);
    assert_eq!(stream.state, FlowFileIteratorState::Done);
    assert_eq!(stream.poll_next(), StreamAction::End);
}

#[test]
fn a_lost_reader_and_a_failed_drain_end_the_stream() {
    let mut stream = StreamedFlowFiles::new();
    stream.poll_next();
    stream.step(StreamEvent::Parsed(30));
    assert_eq!(
        stream.step(StreamEvent::Lost),
        StreamAction::YieldError(FlowFileParsingError::BrokenChannel)
    );
    assert!(stream.is_empty());
    assert_eq!(
        FlowFileParsingError::BrokenChannel.message(),
        "Broken internal flow file parsing channel: channel closed"
    );

    let gone = || IoError::new(ErrorKind::ConnectionReset, "gone");
    let mut stream = StreamedFlowFiles::new();
    stream.poll_next();
    stream.step(StreamEvent::Parsed(30));
    stream.step(StreamEvent::Returned(1));
    let action = stream.step(StreamEvent::DrainFailed(gone()));
    assert_eq!(action, StreamAction::YieldError(FlowFileParsingError::from(gone())));
    assert_eq!(FlowFileParsingError::Io(gone()).message(), "IO error while processing flowfile: gone");
    assert_eq!(FlowFileParsingError::Io(gone()).status(), 500);
}

fn streamed(size: u64) -> StreamedFlowFile<ByteReader<'static>> {
    StreamedFlowFile {
        header: FlowFileHeader::new(size, Attributes::new()),
        contents: Take::new(ByteReader::new(b"hello"), size),
        returns: true,
    }
}

#[test]
fn a_single_flow_file_is_one_and_no_more() {
    let over = StreamedFlowFiles::new_with_content_length(0);
    let open = StreamedFlowFiles::new();

    let none: Option<Result<StreamedFlowFile<ByteReader>, _>> = None;
    let err = single_flow_file(none, &over).unwrap_err();
    assert_eq!(err, FlowFileParsingError::FlowFileExpected);
    assert_eq!(err.message(), "A flow file was expected in the request payload.");

    let more = StreamedFlowFiles::new_with_content_length(1);
    let err = single_flow_file(Some(Ok(streamed(5))), &more).unwrap_err();
    assert_eq!(err, FlowFileParsingError::SingleFlowFileExpected);
    assert_eq!(err.status(), 422);

    let ff = single_flow_file(Some(Ok(streamed(5))), &open).unwrap();
    assert_eq!(ff.len(), 5);
    assert!(ff.into_returned().is_none());

    let ff = single_flow_file(Some(Ok(streamed(5))), &over).unwrap();
    assert!(ff.into_returned().is_none(), "there is no stream to give the reader back to");
    assert!(streamed(5).into_returned().is_some());

    let first: Option<Result<StreamedFlowFile<ByteReader>, _>> =
        Some(Err(FlowFileParsingError::BadMagicBytes([1; 7])));
    let err = single_flow_file(first, &over).unwrap_err();
    assert_eq!(
        err.message(),
        "Incorrect flow file magic bytes, expected 'NiFiFF3' but got [1, 1, 1, 1, 1, 1, 1]"
    );
}

/// Take one flow file out of a body, and see what follows it.
fn only_flow_file(body: &[u8], length: Option<u64>) -> Result<Vec<u8>, FlowFileParsingError> {
    let mut stream = match length {
        Some(length) => StreamedFlowFiles::new_with_content_length(length),
        None => StreamedFlowFiles::new(),
    };
    assert_eq!(stream.poll_next(), StreamAction::Parse);
    let first = match parse_flow_file_from_reader(ByteReader::new(body)) {
        Ok((None, _)) => {
            assert_eq!(stream.step(StreamEvent::Ended), StreamAction::End);
            None
        }
        Ok((Some(ff), total)) => match stream.step(StreamEvent::Parsed(total)) {
            StreamAction::Yield => Some(Ok(ff)),
            StreamAction::YieldError(err) => Some(Err(err)),
            other => panic!("{other:?}"),
        },
        Err((err, _)) => Some(Err(err)),
    };
    let mut ff = single_flow_file(first, &stream)?;
    let content = read_all(ff.contents()).map_err(FlowFileParsingError::from)?;
    if stream.remaining_length.is_none() {
        let behind = ff.contents().inner.read(1).unwrap();
        let event = if behind.is_empty() { ReadEvent::End } else { ReadEvent::Bytes(behind) };
        match after_content(event) {
            TailStep::Clean => {}
            TailStep::Failed(err) => return Err(err),
            TailStep::Read => panic!("nothing was interrupted"),
        }
    }
    Ok(content)
}

#[test]
fn a_single_flow_file_needs_no_content_length() {
    let one = encode_flow_file(&[("k", "v")], b"hello");
    let mut two = one.clone();
    two.extend(encode_flow_file(&[], b"again"));
    let mut trailing = one.clone();
    trailing.push(0);

    assert_eq!(only_flow_file(&one, None).unwrap(), b"hello");
    assert_eq!(only_flow_file(&encode_flow_file(&[], b""), None).unwrap(), b"");
    assert_eq!(only_flow_file(&two, None), Err(FlowFileParsingError::SingleFlowFileExpected));
    assert_eq!(only_flow_file(&trailing, None), Err(FlowFileParsingError::SingleFlowFileExpected));
    assert_eq!(only_flow_file(b"", None), Err(FlowFileParsingError::FlowFileExpected));

    assert_eq!(only_flow_file(&one, Some(one.len() as u64)).unwrap(), b"hello");
    assert_eq!(
        only_flow_file(&two, Some(two.len() as u64)),
        Err(FlowFileParsingError::SingleFlowFileExpected)
    );
    assert_eq!(
        only_flow_file(&one, Some(one.len() as u64 - 1)),
        Err(FlowFileParsingError::ContentLengthLengthMismatch {
            content_length: one.len() as u64 - 1,
            flow_file_required: one.len() as u64,
        })
    );
}

#[test]
fn a_read_behind_the_content_tells_what_follows() {
    let failed = |kind| ReadEvent::Failed(IoError::new(kind, "gone"));
    assert_eq!(after_content(ReadEvent::End), TailStep::Clean);
    assert_eq!(
        after_content(ReadEvent::Bytes(vec![0])),
        TailStep::Failed(FlowFileParsingError::SingleFlowFileExpected)
    );
    assert_eq!(after_content(failed(ErrorKind::Interrupted)), TailStep::Read);
    assert_eq!(
        after_content(failed(ErrorKind::ConnectionReset)),
        TailStep::Failed(FlowFileParsingError::Io(IoError::new(ErrorKind::ConnectionReset, "gone")))
    );
}

#[test]
fn an_interrupted_read_is_tried_again() {
    let mut parser = HeaderParser::new();
    let header = encode_flow_file(&[("k", "v")], b"");
    let mut at = 0;
    loop {
        let interrupted = ReadEvent::Failed(IoError::new(ErrorKind::Interrupted, "again"));
        let ParseStep::Read(same) = parser.step(interrupted) else {
            panic!("an interruption is no end");
        };
        let n = same.wanted();
        match same.step(ReadEvent::Bytes(header[at..at + n].to_vec())) {
            ParseStep::Read(next) => parser = next,
            ParseStep::Header(found, total) => {
                assert_eq!(found.attributes().get("k"), Some("v"));
                assert_eq!(total, header.len() as u64);
                break;
            }
            other => panic!("{other:?}"),
        }
        at += n;
    }
}

#[test]
fn flow_file_iterator_rejects_wrong_content_type() {
    for value in [None, Some("application/json"), Some("Application/flowfile-v3"), Some("application/flowfile-v3; x=1")] {
        assert_eq!(
            check_content_type(value),
            Err((415, "Only `Content-Type: application/flowfile-v3` is accepted."))
        );
    }
}

#[test]
fn flow_file_iterator_accepts_flowfile_v3() {
    assert_eq!(check_content_type(Some("application/flowfile-v3")), Ok(()));
}

fn with_length(value: Option<&str>) -> StreamedFlowFiles {
    match content_length(value) {
        Some(n) => StreamedFlowFiles::new_with_content_length(n),
        None => StreamedFlowFiles::new(),
    }
}

#[test]
fn flow_file_iterator_non_empty_when_non_zero_content_length() {
    assert!(!with_length(Some("12345")).is_empty());
}

#[test]
fn flow_file_iterator_empty_when_zero_content_length() {
    assert!(with_length(Some("0")).is_empty());
}

#[test]
fn streamed_flow_file_future_requires_content() {
    let mut stream = with_length(None);
    let mut seen = run(&mut stream, &[]);
    let first: Option<Result<StreamedFlowFile<ByteReader>, _>> = seen.pop().map(|_| Ok(streamed(0)));
    assert!(single_flow_file(first, &stream).is_err());
}

#[test]
fn content_lengths_are_read_as_numbers() {
    for (text, n) in [
        ("0", Some(0)),
        ("00012", Some(12)),
        ("+7", Some(7)),
        ("18446744073709551615", Some(u64::MAX)),
        ("18446744073709551616", None),
        ("99999999999999999999999", None),
        ("", None),
        ("+", None),
        ("-1", None),
        ("++1", None),
        (" 1", None),
        ("1a", None),
        ("١", None),
    ] {
        assert_eq!(content_length(Some(text)), n, "{text}");
        assert_eq!(text.parse::<u64>().ok(), n, "{text}");
    }
    assert_eq!(content_length(None), None);
}

fn attributes(list: &[(&str, &str)]) -> Attributes {
    let mut map = Attributes::new();
    map.extend(list.iter().map(|(k, v)| (k.to_string(), v.to_string())).collect());
    map
}

#[test]
fn headers_serialize_as_the_format_says() {
    let header = FlowFileHeader::new(4, attributes(&[("key", "value")]));
    let mut out: Vec<u8> = Vec::new();
    header.serialize_header_into(&mut out).unwrap();
    assert_eq!(out, encode_flow_file(&[("key", "value")], b"body")[..out.len()]);

    let long = "v".repeat(0xFFFF);
    let mut out: Vec<u8> = Vec::new();
    write_flowfile_header(&mut out, &attributes(&[("k", &long)]), 0).unwrap();
    assert_eq!(out[12..18], [0xFF, 0xFF, 0, 0, 0xFF, 0xFF]);
    assert_eq!(FlowFileHeader::default(), FlowFileHeader::from((0, Attributes::new())));
}

#[test]
fn flow_files_are_built_and_serialized() {
    let mut ff = FlowFile::builder()
        .content_from_bytes(b"file content".to_vec())
        .attributes(attributes(&[("filename", "test.txt")]))
        .build();
    assert_eq!(ff.header().size(), 12);
    let mut out: Vec<u8> = Vec::new();
    ff.serialize_into(&mut out).unwrap();
    assert_eq!(out, encode_flow_file(&[("filename", "test.txt")], b"file content"));

    let ff = FlowFile::builder()
        .attributes(Attributes::new())
        .content_from_reader_buffered_in_memory(ByteReader::new(b"some stream data"))
        .unwrap()
        .build();
    assert_eq!(ff.header().size(), 16);
    assert_eq!(ff.content().get_ref().as_slice(), b"some stream data");

    let ff = FlowFile::builder().size(2).content(7u8).attributes(Attributes::new()).build();
    assert_eq!((ff.header().size(), *ff.content()), (2, 7));
    let (header, content) = FlowFile::new(3, Attributes::new(), 'x').into_parts();
    assert_eq!((header.size(), content), (3, 'x'));
    assert!(FlowFile::empty().header().is_empty());
    let ff = FlowFile::empty_with_attributes(attributes(&[("k", "v")]));
    assert_eq!(ff.header().attributes().get("k"), Some("v"));
}

#[test]
fn an_encoder_writes_the_header_and_lends_out_the_writer() {
    let data = encode_flow_file(&[("key", "value")], b"body");
    let Ok((Some(ff), _)) = parse_flow_file_from_reader(ByteReader::new(&data)) else {
        panic!("expected a flow file");
    };
    let mut encoder = FlowFileEncoder::new(Vec::<u8>::new());
    {
        let mut body = encoder.write_flow_file(&ff).unwrap();
        body.write_all(b"body").unwrap();
        body.flush().unwrap();
    }
    assert_eq!(encoder.writer, data);
}

#[test]
fn output_flow_files_know_the_size_of_their_content() {
    let mut out = OutputFlowFile::empty();
    assert_eq!(out.set_attribute("k".to_string(), "v".to_string()), None);
    assert_eq!(out.set_attribute("k".to_string(), "w".to_string()), Some("v".to_string()));
    out.with_attribute("a".to_string(), "b".to_string()).with_attribute("c".to_string(), "d".to_string());
    assert_eq!(out.get_attribute("k"), Some("w"));
    assert_eq!(out.get_attribute("c"), Some("d"));
    let mut content = Cursor::new(b"hello".to_vec());
    content.read(2).unwrap();
    let mut ff = out.with_content(content).unwrap();
    assert_eq!(ff.size(), 5, "wherever the reader stands");
    assert_eq!(ff.get_attribute("a"), Some("b"));
    ff.with_attribute("e".to_string(), "f".to_string());
    assert_eq!(ff.get_attribute("e"), Some("f"));
    assert_eq!(read_all(ff.content()).unwrap(), b"llo");
    let other = OutputFlowFile::with_attributes(attributes(&[("k", "v")]));
    assert_eq!(other.get_attribute("k"), Some("v"));
}

#[test]
fn the_header_of_a_flow_file_can_be_changed() {
    let mut ff = FlowFile::builder()
        .content_from_bytes(b"hi".to_vec())
        .attributes(Attributes::new())
        .build();
    ff.header_mut()
        .attributes_mut()
        .insert("k".to_string(), "v".to_string());
    let mut out: Vec<u8> = Vec::new();
    ff.serialize_into(&mut out).unwrap();
    assert_eq!(out, b"NiFiFF3\x00\x01\x00\x01k\x00\x01v\x00\x00\x00\x00\x00\x00\x00\x02hi");
}
