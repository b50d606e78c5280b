use nififf3::json::{Base64Error, Repr, ReprError};
use nififf3::{Attributes, ByteReader, Error, FlowFile, StreamingFlowFile};

fn sample() -> FlowFile<Vec<u8>> {
    FlowFile::builder()
        .attribute("filename", "greeting.txt")
        .content(b"hello".to_vec())
}

/// The description as JSON, field by field.
fn to_json(repr: &Repr) -> String {
    let mut fields = serde_json::Map::new();
    fields.insert("size".to_string(), repr.size.into());
    let mut attributes = serde_json::Map::new();
    for i in 0..repr.attributes.len() {
        attributes.insert(repr.attributes.key_at(i).to_string(), repr.attributes.value_at(i).into());
    }
    fields.insert("attributes".to_string(), attributes.into());
    fields.insert("content".to_string(), repr.content.clone().into());
    serde_json::Value::from(fields).to_string()
}

/// The description that JSON holds. What is missing is nothing.
fn from_json(json: &str) -> Repr {
    let value: serde_json::Value = serde_json::from_str(json).unwrap();
    let mut attributes = Attributes::new();
    if let Some(map) = value.get("attributes").and_then(|a| a.as_object()) {
        for (key, text) in map {
            attributes.insert(key.clone(), text.as_str().unwrap().to_string());
        }
    }
    Repr {
        size: value.get("size").and_then(|s| s.as_u64()),
        attributes,
        content: value.get("content").and_then(|c| c.as_str()).unwrap_or("").to_string(),
    }
}

#[test]
fn serializes_to_the_cli_json_shape() {
    let repr = sample().to_repr();
    assert_eq!(repr.size, Some(5));
    assert_eq!(repr.attributes.get("filename"), Some("greeting.txt"));
    assert_eq!(repr.content, "aGVsbG8=");
    let expected: serde_json::Value = serde_json::from_str(
        r#"{"size":5,"attributes":{"filename":"greeting.txt"},"content":"aGVsbG8="}"#,
    )
    .unwrap();
    let json: serde_json::Value = serde_json::from_str(&to_json(&repr)).unwrap();
    assert_eq!(json, expected);
}

#[test]
fn deserializes_with_and_without_size() {
    for json in [
        r#"{"size":5,"attributes":{"filename":"greeting.txt"},"content":"aGVsbG8="}"#,
        r#"{"attributes":{"filename":"greeting.txt"},"content":"aGVsbG8="}"#,
    ] {
        let flow_file = from_json(json).into_flow_file().unwrap();
        assert_eq!(flow_file.size(), 5);
        assert_eq!(flow_file.attributes().get("filename"), Some("greeting.txt"));
        assert_eq!(flow_file.content().as_slice(), b"hello");
    }
}

#[test]
fn an_empty_flow_file_round_trips() {
    let empty = FlowFile::builder().content(Vec::new());
    let json = to_json(&empty.to_repr());
    assert_eq!(from_json(&json).into_flow_file().unwrap(), empty);

    for json in ["{}", r#"{"attributes":{}}"#, r#"{"size":0}"#] {
        let flow_file = from_json(json).into_flow_file().unwrap();
        assert_eq!(flow_file, empty, "{json}");
    }
}

#[test]
fn streaming_matches_the_in_memory_serialization() {
    let bytes = sample().to_bytes();
    let parsed = FlowFile::parse(ByteReader::new(&bytes)).unwrap();

    assert_eq!(
        to_json(&StreamingFlowFile::new(parsed).to_repr().unwrap()),
        to_json(&sample().to_repr())
    );
}

#[test]
fn streaming_a_truncated_content_fails() {
    let bytes = sample().to_bytes();
    let parsed = FlowFile::parse(ByteReader::new(&bytes[..bytes.len() - 2])).unwrap();

    let err = StreamingFlowFile::new(parsed).to_repr().unwrap_err();
    assert!(err.message().contains("size mismatch"), "{err:?}");
    assert_eq!(err, Error::SizeMismatch { expected: 5, actual: 3 });
}

#[test]
fn streaming_twice_fails_rather_than_lying() {
    let bytes = sample().to_bytes();
    let mut streaming = StreamingFlowFile::new(FlowFile::parse(ByteReader::new(&bytes)).unwrap());

    assert!(streaming.to_repr().is_ok());
    assert!(streaming.to_repr().is_err());
}

#[test]
fn rejects_mismatched_size() {
    let json = r#"{"size":3,"attributes":{},"content":"aGVsbG8="}"#;
    let err = from_json(json).into_flow_file().unwrap_err();
    assert!(err.message().contains("does not match"));
    assert_eq!(err, ReprError::Size { size: 3, actual: 5 });
    assert_eq!(
        err.message(),
        "size field (3) does not match decoded content length (5)"
    );
}

#[test]
fn rejects_invalid_base64() {
    let json = r#"{"attributes":{},"content":"not base64!!"}"#;
    let err = from_json(json).into_flow_file().unwrap_err();
    assert_eq!(err, ReprError::Content(Base64Error::InvalidByte(3, b' ')));
    assert_eq!(err.message(), "Invalid symbol 32, offset 3.");
}

#[test]
fn every_kind_of_bad_base64_is_named() {
    for (content, error, text) in [
        ("aGVsb", Base64Error::InvalidLength(5), "Invalid input length: 5"),
        ("aGVsbG9=", Base64Error::InvalidLastSymbol(6, b'9'), "Invalid last symbol 57, offset 6."),
        ("aGVsbG8", Base64Error::InvalidPadding, "Invalid padding"),
    ] {
        let repr = Repr { size: None, attributes: Attributes::new(), content: content.to_string() };
        let err = repr.into_flow_file().unwrap_err();
        assert_eq!(err, ReprError::Content(error));
        assert_eq!(err.message(), text);
    }
}

#[test]
fn a_description_round_trips_whatever_the_content() {
    for len in 0..10usize {
        let content: Vec<u8> = (0..len).map(|i| (i * 37 + 200) as u8).collect();
        let flow_file = FlowFile::builder().attribute("é", "→").content(content.clone());
        let repr = flow_file.to_repr();
        assert_eq!(repr.content.len(), len.div_ceil(3) * 4);
        let mut streaming = StreamingFlowFile::new(flow_file.clone().into_reader());
        assert_eq!(streaming.to_repr().unwrap().content, repr.content);
        assert_eq!(repr.into_flow_file().unwrap(), flow_file);
    }
}

#[test]
fn decoded_content_decides_the_size() {
    let repr = Repr { size: None, attributes: Attributes::new(), content: String::new() };
    let flow_file = repr.with_content(vec![1, 2, 3]).unwrap();
    assert_eq!(flow_file.size(), 3);
    assert_eq!(flow_file.content(), &vec![1, 2, 3]);
}

#[test]
fn the_wrapper_gives_back_what_is_left() {
    let flow_file = FlowFile::from_parts(2, Attributes::new(), ByteReader::new(b"hello"));
    let mut streaming = StreamingFlowFile::new(flow_file);
    assert_eq!(streaming.to_repr().unwrap().content, "aGU=");
    assert_eq!(streaming.into_inner().into_content().rest(), b"llo");
}
