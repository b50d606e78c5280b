use nififf3::cli::{
    checked_bytes, content, copy_content, create, parse_attributes, read_within, CliError, LimitArgs,
};
use nififf3::json::Repr;
use nififf3::{Attributes, ByteReader, Cursor, Error, ErrorKind, FlowFile, IoError, Limits};

fn sample_bytes() -> Vec<u8> {
    FlowFile::builder()
        .attribute("filename", "greeting.txt")
        .content(b"hello".to_vec())
        .to_bytes()
}

fn args(list: &[&str]) -> Vec<String> {
    list.iter().map(|a| a.to_string()).collect()
}

fn describe(bytes: &[u8], limits: Limits) -> Result<Vec<Repr>, Error> {
    let mut reader = ByteReader::new(bytes);
    let mut lines = Vec::new();
    while let Some(flow_file) = FlowFile::parse_next_with_limits(&mut reader, limits)? {
        lines.push(flow_file.into_memory()?.to_repr());
    }
    Ok(lines)
}

fn metadata(bytes: &[u8], limits: Limits) -> Result<Vec<(u64, Attributes)>, CliError> {
    let mut reader = ByteReader::new(bytes);
    let mut lines = Vec::new();
    loop {
        match FlowFile::parse_next_with_limits(&mut reader, limits) {
            Ok(Some(flow_file)) => {
                lines.push((flow_file.size(), flow_file.attributes().clone()));
                let mut nowhere: Vec<u8> = Vec::new();
                copy_content(flow_file, &mut nowhere)?;
            }
            Ok(None) => return Ok(lines),
            Err(e) => return Err(CliError::Flow(e)),
        }
    }
}

fn repr(size: Option<u64>, attributes: &[(&str, &str)], content: &str) -> Repr {
    let mut map = Attributes::new();
    map.extend(attributes.iter().map(|(k, v)| (k.to_string(), v.to_string())).collect());
    Repr { size, attributes: map, content: content.to_string() }
}

#[test]
fn to_json_from_json_roundtrip() {
    let flow_file = sample_bytes();

    let lines = describe(&flow_file, Limits::unlimited()).unwrap();
    assert_eq!(lines.len(), 1);
    for line in lines {
        assert_eq!(line.size, Some(5));
        assert_eq!(line.attributes.get("filename"), Some("greeting.txt"));
        assert_eq!(line.content, "aGVsbG8=");

        let back = line.into_flow_file().unwrap();
        assert_eq!(checked_bytes(&back, Limits::unlimited()).unwrap(), flow_file);
    }
}

#[test]
fn to_json_handles_concatenated_flow_files() {
    let mut input = sample_bytes();
    input.extend_from_slice(&sample_bytes());

    let lines = describe(&input, Limits::unlimited()).unwrap();
    assert_eq!(lines.len(), 2);
    assert_eq!(lines[0].size, lines[1].size);
    assert_eq!(lines[0].attributes, lines[1].attributes);
    assert_eq!(lines[0].content, lines[1].content);
}

#[test]
fn create_builds_a_flow_file() {
    let bytes = create(
        &args(&["k=v", "other=thing"]),
        Limits::unlimited(),
        &mut ByteReader::new(b"hello"),
    )
    .unwrap();
    let flow_file = FlowFile::from_bytes(&bytes).unwrap();
    assert_eq!(flow_file.attributes().get("k"), Some("v"));
    assert_eq!(flow_file.attributes().get("other"), Some("thing"));
    assert_eq!(flow_file.content().as_slice(), b"hello");
}

#[test]
fn attrs_prints_metadata_without_content() {
    let mut input = sample_bytes();
    input.extend_from_slice(&sample_bytes());

    let lines = metadata(&input, Limits::unlimited()).unwrap();
    assert_eq!(lines.len(), 2);
    for (size, attributes) in lines {
        assert_eq!(size, 5);
        assert_eq!(attributes.get("filename"), Some("greeting.txt"));
    }
}

#[test]
fn content_extracts_raw_content() {
    let mut input = sample_bytes();
    input.extend_from_slice(&sample_bytes());

    let mut out: Vec<u8> = Vec::new();
    content(ByteReader::new(&input), Limits::unlimited(), &mut out).unwrap();
    assert_eq!(out, b"hellohello");
}

#[test]
fn content_detects_truncated_input() {
    let bytes = sample_bytes();
    let mut out: Vec<u8> = Vec::new();
    let err = content(
        ByteReader::new(&bytes[..bytes.len() - 2]),
        Limits::unlimited(),
        &mut out,
    )
    .unwrap_err();
    assert!(err.message().contains("size mismatch"));
    assert_eq!(out, b"hel", "what there was has been written");
}

#[test]
fn create_rejects_malformed_attributes() {
    let err = create(&args(&["not-a-pair"]), Limits::unlimited(), &mut ByteReader::new(b"")).unwrap_err();
    assert!(err.message().contains("expected KEY=VALUE"));
    assert_eq!(err.message(), "invalid attribute \"not-a-pair\": expected KEY=VALUE");
}

#[test]
fn from_json_rejects_size_mismatch() {
    let err = repr(Some(3), &[], "aGVsbG8=").into_flow_file().unwrap_err();
    assert!(err.message().contains("does not match"));
}

fn many_small() -> Vec<u8> {
    FlowFile::builder()
        .attributes((0..50).map(|i| (format!("k{i}"), "v".to_string())).collect())
        .content(Vec::new())
        .to_bytes()
}

#[test]
fn limit_flags_reject_oversized_headers() {
    let many = many_small();

    let limits = Limits::from(LimitArgs {
        max_attributes: Some(10),
        max_attribute_len: None,
        max_total_attribute_len: None,
        max_content_len: None,
    });
    let err = metadata(&many, limits).unwrap_err();
    assert!(err.message().contains("attribute count"));

    let limits = Limits::from(LimitArgs {
        max_attributes: None,
        max_attribute_len: None,
        max_total_attribute_len: None,
        max_content_len: Some(2),
    });
    let mut out: Vec<u8> = Vec::new();
    let err = content(ByteReader::new(&sample_bytes()), limits, &mut out).unwrap_err();
    assert!(err.message().contains("content size"));
    assert!(out.is_empty());

    let unset = Limits::from(LimitArgs {
        max_attributes: None,
        max_attribute_len: None,
        max_total_attribute_len: None,
        max_content_len: None,
    });
    assert_eq!(unset, Limits::unlimited());
    assert!(metadata(&many, unset).is_ok());
}

#[test]
fn limit_flags_apply_to_the_json_path_too() {
    let described = || repr(None, &[("k", "a value longer than the limit")], "");

    let flow_file = described().into_flow_file().unwrap();
    let err = checked_bytes(&flow_file, Limits::unlimited().with_max_attribute_len(Some(4))).unwrap_err();
    assert!(err.message().contains("attribute length"));

    let err = create(
        &args(&["k=v"]),
        Limits::unlimited().with_max_content_len(Some(2)),
        &mut ByteReader::new(b"far too much content"),
    )
    .unwrap_err();
    assert!(err.message().contains("content size"));

    assert!(checked_bytes(&flow_file, Limits::unlimited()).is_ok());
}

#[test]
fn create_stops_reading_at_the_content_limit() {
    let input = vec![b'x'; 1 << 20];
    let mut reader = ByteReader::new(&input);
    let err = create(
        &args(&["k=v"]),
        Limits::unlimited().with_max_content_len(Some(0)),
        &mut reader,
    )
    .unwrap_err();
    assert!(err.message().contains("content size"));
    assert_eq!(err.message(), "content size exceeds the limit of 0 bytes");
    assert_eq!(reader.rest().len(), input.len() - 1, "one byte was enough to tell");

    let bytes = create(
        &args(&["k=v"]),
        Limits::unlimited().with_max_content_len(Some(5)),
        &mut ByteReader::new(b"hello"),
    )
    .unwrap();
    assert_eq!(FlowFile::from_bytes(&bytes).unwrap().content().as_slice(), b"hello");
}

#[test]
fn create_rejects_oversized_attributes_without_reading_content() {
    let mut reader = ByteReader::new(b"content");
    let err = create(
        &args(&["key=value"]),
        Limits::unlimited().with_max_attribute_len(Some(2)),
        &mut reader,
    )
    .unwrap_err();
    assert!(err.message().contains("attribute length"));
    assert_eq!(reader.rest(), b"content");
}

#[test]
fn total_attribute_length_flag_is_enforced() {
    let many = FlowFile::builder()
        .attributes((0..10).map(|i| (format!("k{i}"), "v".repeat(100))).collect())
        .content(Vec::new())
        .to_bytes();

    let err = metadata(&many, Limits::unlimited().with_max_total_attribute_len(Some(256))).unwrap_err();
    assert!(err.message().contains("attribute bytes total"));

    assert!(metadata(&many, Limits::unlimited().with_max_attribute_len(Some(1024))).is_ok());
}

#[test]
fn to_json_rejects_garbage() {
    let err = describe(b"not a flow file", Limits::unlimited()).unwrap_err();
    assert!(err.message().contains("invalid magic"));
}

#[test]
fn attributes_are_split_at_the_first_equals_sign() {
    let attributes = parse_attributes(&args(&["a=b=c", "=", "k=", "é→=🙂", "a=d"])).unwrap();
    assert_eq!(attributes.len(), 4);
    assert_eq!(attributes.get("a"), Some("d"), "a later one wins");
    assert_eq!(attributes.get(""), Some(""));
    assert_eq!(attributes.get("k"), Some(""));
    assert_eq!(attributes.get("é→"), Some("🙂"));
    assert_eq!(
        parse_attributes(&args(&["a=b", "first\n", "second"])),
        Err(CliError::Attribute("first\n".to_string()))
    );
    assert_eq!(
        CliError::Attribute("first\n".to_string()).message(),
        "invalid attribute \"first\\n\": expected KEY=VALUE"
    );
}

#[test]
fn reading_within_a_limit_takes_what_fits() {
    assert_eq!(read_within(&mut ByteReader::new(b"hello"), None).unwrap(), b"hello");
    assert_eq!(read_within(&mut ByteReader::new(b"hello"), Some(5)).unwrap(), b"hello");
    assert_eq!(read_within(&mut ByteReader::new(b"hello"), Some(u64::MAX)).unwrap(), b"hello");
    assert_eq!(
        read_within(&mut ByteReader::new(b"hello"), Some(4)),
        Err(CliError::Content { limit: 4 })
    );
}

#[test]
fn a_content_longer_than_declared_is_copied_whole_and_refused() {
    let flow_file = FlowFile::from_parts(3, Attributes::new(), Cursor::new(b"hello".to_vec()));
    let mut out: Vec<u8> = Vec::new();
    assert_eq!(
        copy_content(flow_file, &mut out),
        Err(CliError::Flow(Error::SizeMismatch { expected: 3, actual: 5 }))
    );
    assert_eq!(out, b"hello");
}

#[test]
fn an_io_failure_is_reported_as_it_is() {
    let err = CliError::Io(IoError::new(ErrorKind::PermissionDenied, "not yours"));
    assert_eq!(err.message(), "not yours");
}
