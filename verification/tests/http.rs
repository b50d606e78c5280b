use nififf3::async_io::ReadEvent;
use nififf3::error::truncated;
use nififf3::http::{
    abbreviated, require_media_type, BodyRead, ChunkAnswer, ChunkEvent, ExactLength, FlowFilesResponse, PipeAnswer,
    PipeEvent, ProducerStream, ResponsePlan, StrictRejection,
};
use nififf3::{ByteReader, Detail, Error, ErrorKind, FlowFile, FlowFileBody, FlowFiles, IoError, MEDIA_TYPE};

#[test]
fn the_media_type_is_compared_without_parameters_or_case() {
    for value in [
        "application/flowfile-v3",
        "Application/FlowFile-V3",
        " application/flowfile-v3 ",
        "application/flowfile-v3; charset=utf-8",
        "\u{2003}application/flowfile-v3\t;",
    ] {
        assert_eq!(require_media_type(Some(value)), Ok(()), "{value:?}");
    }
    for value in [
        "",
        ";application/flowfile-v3",
        "application/json",
        "application/flowfile-v2",
        "application/flowfile-v3x",
        "application/flowfile-v3, text/plain",
        "app lication/flowfile-v3",
    ] {
        assert_eq!(
            require_media_type(Some(value)),
            Err(StrictRejection::UnsupportedMediaType(Some(value.to_string())))
        );
    }
    assert_eq!(require_media_type(None), Err(StrictRejection::UnsupportedMediaType(None)));
}

#[test]
fn a_rejection_names_what_was_sent() {
    let rejection = require_media_type(None).unwrap_err();
    assert_eq!(rejection.status(), 415);
    assert_eq!(
        rejection.message(),
        "expected content type \"application/flowfile-v3\", got None"
    );
    let rejection = require_media_type(Some("text/\"plain\"\n")).unwrap_err();
    assert_eq!(
        rejection.message(),
        "expected content type \"application/flowfile-v3\", got Some(\"text/\\\"plain\\\"\\n\")"
    );
}

#[test]
fn a_rejection_does_not_echo_an_unbounded_content_type() {
    assert_eq!(abbreviated("text/plain"), "text/plain");
    let exact = "x".repeat(64);
    assert_eq!(abbreviated(&exact), exact);
    let long = "x".repeat(65);
    assert_eq!(abbreviated(&long), format!("{exact}…"));
    // Cut at a character, never inside one.
    let wide = format!("{}é", "x".repeat(63));
    assert_eq!(wide.len(), 65);
    assert_eq!(abbreviated(&wide), format!("{}…", "x".repeat(63)));
    let wider = format!("{}🙂z", "x".repeat(61));
    assert_eq!(abbreviated(&wider), format!("{}…", "x".repeat(61)));
    let Err(StrictRejection::UnsupportedMediaType(Some(echo))) = require_media_type(Some(&"y".repeat(100_000))) else {
        panic!("expected a rejection");
    };
    assert_eq!(echo, format!("{}…", "y".repeat(64)));
}

#[test]
fn size_failures_are_413_and_the_rest_400() {
    for err in [
        Error::TooManyAttributes { count: 2, limit: 1 },
        Error::AttributeTooLong { len: 2, limit: 1 },
        Error::HeaderTooLarge { len: 2, limit: 1 },
        Error::ContentTooLarge { size: 2, limit: 1 },
        Error::Io(IoError {
            kind: ErrorKind::Other,
            detail: Detail::BodyTooLarge("length limit exceeded".to_string()),
        }),
    ] {
        assert_eq!(err.status(), 413, "{err:?}");
        assert_eq!(StrictRejection::from(err).status(), 413);
    }
    for err in [
        Error::InvalidMagic([0; 7]),
        Error::TrailingData(1),
        Error::SizeMismatch { expected: 1, actual: 0 },
        Error::WriterPoisoned,
        Error::Io(IoError::new(ErrorKind::UnexpectedEof, "early")),
        Error::Io(truncated(1, 0)),
    ] {
        assert_eq!(err.status(), 400, "{err:?}");
        let text = err.message();
        assert_eq!(StrictRejection::from(err).message(), text);
    }
}

#[test]
fn a_body_over_the_limit_keeps_its_message() {
    let io = IoError { kind: ErrorKind::Other, detail: Detail::BodyTooLarge("length limit exceeded".to_string()) };
    assert_eq!(io.message(), "length limit exceeded");
    assert!(io.carried().is_none());
    assert!(matches!(Error::from(io), Error::Io(_)));
}

#[test]
fn the_body_adapter_never_polls_the_request_stream_after_it_ends() {
    let mut body = FlowFileBody::new();
    assert_eq!(body.read(4), BodyRead::Poll);
    assert_eq!(body.arrived(ReadEvent::Bytes(b"hello".to_vec())), None);
    assert_eq!(body.read(3), BodyRead::Give(b"hel".to_vec()));
    assert_eq!(body.read(0), BodyRead::Give(Vec::new()));
    assert_eq!(body.read(9), BodyRead::Give(b"lo".to_vec()));
    assert_eq!(body.read(9), BodyRead::Poll);
    assert_eq!(body.arrived(ReadEvent::Bytes(Vec::new())), None);
    assert_eq!(body.read(9), BodyRead::Poll, "an empty chunk is not the end");
    assert_eq!(body.arrived(ReadEvent::End), None);
    for _ in 0..3 {
        assert_eq!(body.read(9), BodyRead::Give(Vec::new()));
    }

    let mut body = FlowFileBody::new();
    assert_eq!(body.read(1), BodyRead::Poll);
    let gone = || IoError::new(ErrorKind::ConnectionReset, "gone");
    assert_eq!(body.arrived(ReadEvent::Failed(gone())), Some(gone()));
    assert_eq!(body.read(1), BodyRead::Give(Vec::new()));
}

#[test]
fn a_response_whose_content_reader_ends_early_fails_the_body() {
    let flow_file = FlowFile::builder().attribute("k", "v").content(b"hello".to_vec());
    let head = flow_file.response_head();
    let bytes = flow_file.to_bytes();
    assert_eq!(head.content_type, MEDIA_TYPE);
    assert_eq!(head.content_length, bytes.len().to_string());
    assert_eq!(head.header, bytes[..bytes.len() - 5]);

    let mut body = head.body;
    assert_eq!(body.answer(ChunkEvent::Chunk(head.header.len() as u64)), ChunkAnswer::Forward);
    assert_eq!(body.answer(ChunkEvent::Chunk(3)), ChunkAnswer::Forward);
    assert_eq!(body.answer(ChunkEvent::End), ChunkAnswer::Fail(truncated(5, 3)));
    assert_eq!(body.answer(ChunkEvent::End), ChunkAnswer::Finish, "nothing follows a failure");
}

#[test]
fn an_outgoing_body_is_complete_when_everything_came() {
    let mut body = ExactLength::new(5, 20);
    assert_eq!(body.answer(ChunkEvent::Chunk(20)), ChunkAnswer::Forward);
    assert_eq!(body.answer(ChunkEvent::End), ChunkAnswer::Finish);

    let mut body = ExactLength::new(5, 20);
    assert_eq!(body.answer(ChunkEvent::Failed), ChunkAnswer::Forward);
    assert_eq!(body.answer(ChunkEvent::Chunk(1)), ChunkAnswer::Finish);

    let mut body = ExactLength::new(5, 20);
    assert_eq!(body.answer(ChunkEvent::End), ChunkAnswer::Fail(truncated(5, 0)), "not even the header");
}

#[test]
fn a_buffered_response_holds_the_flow_files_one_after_the_other() {
    let one = FlowFile::builder().attribute("n", "1").content(b"first".to_vec());
    let two = FlowFile::builder().attribute("n", "2").content(b"second".to_vec());
    let mut expected = one.to_bytes();
    expected.extend(two.to_bytes());

    let response: FlowFilesResponse<()> = FlowFilesResponse::buffered(vec![one.clone(), two.clone()]);
    let ResponsePlan::Whole { content_type, content_length, body } = response.into_response() else {
        panic!("expected a whole body");
    };
    assert_eq!(content_type, MEDIA_TYPE);
    assert_eq!(content_length, expected.len().to_string());
    assert_eq!(body, expected);
    let mut flow_files = FlowFiles::new(ByteReader::new(&body));
    assert_eq!(flow_files.next(), Some(Ok(one)));
    assert_eq!(flow_files.next(), Some(Ok(two)));
    assert_eq!(flow_files.next(), None);

    let none: FlowFilesResponse<()> = FlowFilesResponse::buffered(Vec::new());
    assert!(matches!(
        none.into_response(),
        ResponsePlan::Whole { content_length, body, .. } if content_length == "0" && body.is_empty()
    ));
}

#[test]
fn a_zero_buffer_size_still_delivers_the_body() {
    for (asked, given) in [(0, 1), (1, 1), (8192, 8192)] {
        let plan = FlowFilesResponse::new("producer").buffer_size(asked).into_response();
        let ResponsePlan::Piped { content_type, buffer_size, producer } = plan else {
            panic!("expected a pipe");
        };
        assert_eq!((content_type.as_str(), buffer_size, producer), (MEDIA_TYPE, given, "producer"));
    }
    assert_eq!(FlowFilesResponse::new(()).buffer_size, 64 * 1024);
}

#[test]
fn a_producer_error_truncates_the_body_rather_than_ending_it_cleanly() {
    let mut body = ProducerStream::new();
    assert_eq!(body.answer(PipeEvent::Chunk), PipeAnswer::Forward);
    assert_eq!(body.answer(PipeEvent::Drained), PipeAnswer::Await);
    assert!(body.running);
    assert_eq!(body.answer(PipeEvent::Broke), PipeAnswer::Forward);
    assert!(!body.running);
    assert_eq!(body.answer(PipeEvent::Drained), PipeAnswer::Finish);

    let mut body = ProducerStream::new();
    assert_eq!(body.answer(PipeEvent::Drained), PipeAnswer::Await);
    assert_eq!(body.answer(PipeEvent::Finished), PipeAnswer::Finish);

    let mut body = ProducerStream::new();
    assert_eq!(body.answer(PipeEvent::Failed), PipeAnswer::Forward);
    assert_eq!(body.answer(PipeEvent::Chunk), PipeAnswer::Finish);
}
