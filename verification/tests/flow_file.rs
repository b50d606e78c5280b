use nififf3::{attr, Attributes, ByteReader, Cursor, Error, FlowFile, Limits};

#[test]
fn with_size_keeps_the_serializers_in_step() {
    let flow_file = FlowFile::builder()
        .attribute("k", "v")
        .content(b"hi".to_vec())
        .map_content(|content: Vec<u8>| content.repeat(3))
        .with_size(6);

    assert_eq!(flow_file.size(), 6);

    let buffered = flow_file.to_bytes();
    let mut streamed: Vec<u8> = Vec::new();
    flow_file.clone().into_reader().write_to(&mut streamed).unwrap();
    assert_eq!(buffered, streamed);

    let parsed = FlowFile::from_bytes(&buffered).unwrap();
    assert_eq!(parsed.size(), 6);
    assert_eq!(parsed.content().as_slice(), b"hihihi");
}

#[test]
fn to_bytes_declares_the_size_write_to_would_stream() {
    let flow_file = FlowFile::builder().content(b"hello".to_vec());
    let mut streamed: Vec<u8> = Vec::new();
    flow_file.clone().into_reader().write_to(&mut streamed).unwrap();
    assert_eq!(flow_file.to_bytes(), streamed);
}

#[test]
fn the_sized_maps_keep_the_size_with_the_content() {
    let flow_file = FlowFile::builder()
        .attribute("k", "v")
        .content(b"hi".to_vec())
        .map_bytes(|content: Vec<u8>| content.repeat(3));
    assert_eq!(flow_file.size(), 6);
    assert_eq!(flow_file.content().as_slice(), b"hihihi");
    assert_eq!(flow_file.attribute("k"), Some("v"), "attributes carried");

    let by_hand = FlowFile::builder()
        .attribute("k", "v")
        .content(b"hi".to_vec())
        .map_content(|content: Vec<u8>| content.repeat(3))
        .with_size(6);
    assert_eq!(flow_file, by_hand);

    let sized = FlowFile::builder()
        .content(b"hi".to_vec())
        .map_content_sized(|content: Vec<u8>| (std::io::Cursor::new(content.repeat(2)), 4));
    assert_eq!(sized.size(), 4);
}

#[test]
fn from_vec_matches_from_bytes() {
    let bytes = FlowFile::builder()
        .attribute("filename", "greeting.txt")
        .content(b"hello".to_vec())
        .to_bytes();

    assert_eq!(
        FlowFile::from_vec(bytes.clone()).unwrap(),
        FlowFile::from_bytes(&bytes).unwrap()
    );

    let mut trailing = bytes.clone();
    trailing.push(0);
    assert!(matches!(FlowFile::from_vec(trailing), Err(Error::TrailingData(1))));
    assert!(matches!(
        FlowFile::from_vec(bytes[..bytes.len() - 2].to_vec()),
        Err(Error::SizeMismatch { expected: 5, actual: 3 })
    ));
    assert!(matches!(
        FlowFile::from_vec_with_limits(bytes, Limits::unlimited().with_max_content_len(Some(4))),
        Err(Error::ContentTooLarge { size: 5, limit: 4 })
    ));
}

#[test]
fn parts_round_trip_through_from_parts() {
    let flow_file = FlowFile::builder()
        .attribute("filename", "greeting.txt")
        .content(b"hello".to_vec());

    let (size, attributes, content) = flow_file.clone().into_parts();
    assert_eq!(FlowFile::from_parts(size, attributes, content), flow_file);
}

#[test]
fn flow_files_compare_on_every_part() {
    let flow_file = FlowFile::builder().attribute("k", "v").content(b"hi".to_vec());

    assert_eq!(flow_file, flow_file.clone());
    assert_ne!(
        flow_file,
        FlowFile::builder().attribute("k", "w").content(b"hi".to_vec())
    );
    assert_ne!(
        flow_file,
        FlowFile::builder().attribute("k", "v").content(b"no".to_vec())
    );
    assert_ne!(flow_file, flow_file.clone().with_size(1));
}

#[test]
fn attribute_reports_a_missing_key_rather_than_panicking() {
    let flow_file = FlowFile::builder()
        .attribute(attr::FILENAME, "greeting.txt")
        .content(Vec::new());

    assert_eq!(flow_file.attribute(attr::FILENAME), Some("greeting.txt"));
    assert_eq!(flow_file.attribute(attr::MIME_TYPE), None);
}

#[test]
fn map_content_preserves_the_size() {
    let flow_file = FlowFile::builder().content(b"hi".to_vec());
    assert_eq!(flow_file.map_content(std::io::Cursor::new).size(), 2);
}

#[test]
fn the_serialized_length_is_the_length_of_the_serialized_bytes() {
    for value in ["", "x", "é→🙂"] {
        let flow_file = FlowFile::builder().attribute("k", value).content(b"hello".to_vec());
        assert_eq!(flow_file.serialized_len(), flow_file.to_bytes().len() as u64);
        assert_eq!(flow_file.header_bytes(), flow_file.to_bytes()[..flow_file.to_bytes().len() - 5]);
    }
}

#[test]
fn attributes_are_kept_sorted_and_the_last_value_wins() {
    let mut flow_file = FlowFile::builder()
        .attribute("b", "1")
        .attribute("a", "2")
        .attribute("é", "3")
        .attribute("B", "4")
        .attribute("b", "5")
        .empty();
    let attributes = flow_file.attributes();
    assert_eq!(attributes.len(), 4);
    let all: Vec<(&str, &str)> = (0..4).map(|i| (attributes.key_at(i), attributes.value_at(i))).collect();
    assert_eq!(all, [("B", "4"), ("a", "2"), ("b", "5"), ("é", "3")]);

    let attributes = flow_file.attributes_mut();
    assert_eq!(attributes.remove("a"), Some("2".to_string()));
    assert_eq!(attributes.remove("a"), None);
    assert_eq!(attributes.insert("b".to_string(), "6".to_string()), Some("5".to_string()));
    assert_eq!(flow_file.attributes().len(), 3);
    assert_eq!(flow_file.attribute("b"), Some("6"));
}

#[test]
fn a_flow_file_can_be_read_from_any_reader() {
    let flow_file = FlowFile::builder().attribute("k", "v").content(b"hello".to_vec());
    let bytes = flow_file.to_bytes();
    let borrowed = FlowFile::parse(ByteReader::new(&bytes)).unwrap().into_memory().unwrap();
    let owned = FlowFile::parse(Cursor::new(bytes)).unwrap().into_memory().unwrap();
    assert_eq!(borrowed, flow_file);
    assert_eq!(owned, flow_file);
}

#[test]
fn content_str_reads_the_content_as_text() {
    let text = FlowFile::builder().content("grüße".as_bytes().to_vec());
    assert_eq!(text.content_str().unwrap(), "grüße");

    let bytes = vec![b'o', b'k', 0xFF];
    let err = FlowFile::builder().content(bytes.clone()).content_str().unwrap_err();
    assert_eq!(err.bytes, bytes);
    assert_eq!(err.reason, "invalid utf-8 sequence of 1 bytes from index 2");
}

#[test]
fn parse_attribute_reads_a_whole_number() {
    let flow_file = FlowFile::builder()
        .attribute("plain", "42")
        .attribute("signed", "+7")
        .attribute("padded", "007")
        .attribute("largest", "18446744073709551615")
        .attribute("larger", "18446744073709551616")
        .attribute("negative", "-1")
        .attribute("sign", "+")
        .attribute("empty", "")
        .attribute("spaced", " 1")
        .content(Vec::new());
    assert_eq!(flow_file.parse_attribute("plain"), Ok(Some(42)));
    assert_eq!(flow_file.parse_attribute("signed"), Ok(Some(7)));
    assert_eq!(flow_file.parse_attribute("padded"), Ok(Some(7)));
    assert_eq!(flow_file.parse_attribute("largest"), Ok(Some(u64::MAX)));
    assert_eq!(flow_file.parse_attribute("absent"), Ok(None));
    for key in ["larger", "negative", "sign", "empty", "spaced"] {
        let err = flow_file.parse_attribute(key).unwrap_err();
        assert_eq!(Some(err.text.as_str()), flow_file.attribute(key), "{key}");
    }
    assert_eq!(
        flow_file.parse_attribute("spaced").unwrap_err().message(),
        "not a number: \" 1\""
    );
}

#[test]
fn a_length_that_cannot_be_said_is_the_largest_there_is() {
    let huge = FlowFile::from_parts(u64::MAX, Attributes::new(), Vec::<u8>::new());
    assert_eq!(huge.serialized_len(), u64::MAX);
    // Magic, count and size take 17 bytes.
    let exact = FlowFile::from_parts(u64::MAX - 17, Attributes::new(), Vec::<u8>::new());
    assert_eq!(exact.serialized_len(), u64::MAX);
    let less = FlowFile::from_parts(u64::MAX - 18, Attributes::new(), Vec::<u8>::new());
    assert_eq!(less.serialized_len(), u64::MAX - 1);
}

#[test]
fn a_flow_file_is_indexed_by_attribute() {
    let flow_file = FlowFile::builder()
        .attribute("filename", "greeting.txt")
        .attribute("empty", "")
        .content(b"Hello, NiFi!".to_vec());
    assert_eq!(&flow_file["filename"], "greeting.txt");
    assert_eq!(&flow_file["empty"], "");
}
