use nififf3::{ByteReader, ErrorKind, FlowFile, FragmentKeys, IoError, Reader};

#[test]
fn defragment_undoes_what_fragments_added() {
    let parent = FlowFile::builder()
        .attribute("filename", "records.csv")
        .attribute("source", "upload")
        .content(b"a\nb".to_vec());

    let mut parts = parent.fragments().with_count(2);
    let part = parts.next_part().attribute("filename", "record-0").content(b"a".to_vec());

    let merged = part.derive().defragment().content(b"a\nb".to_vec());
    let attributes = merged.attributes();

    assert_eq!(attributes.get("filename"), Some("records.csv"), "restored");
    assert_eq!(attributes.get("source"), Some("upload"), "still inherited");
    for key in [
        "fragment.identifier",
        "fragment.index",
        "fragment.count",
        "segment.original.filename",
    ] {
        assert!(!attributes.contains_key(key), "{key} should be gone");
    }
}

#[test]
fn defragment_with_undoes_a_custom_split_round_trip() {
    let keys = FragmentKeys::default()
        .identifier_attribute("split.id")
        .index_attribute("split.n")
        .count_attribute("split.total")
        .original_filename_attribute("split.parent");

    let parent = FlowFile::builder()
        .attribute("filename", "records.csv")
        .attribute("source", "upload")
        .content(b"a\nb".to_vec());

    let part = parent
        .fragments()
        .with_keys(keys.clone())
        .with_count(2)
        .next_part()
        .attribute("filename", "record-0")
        .content(b"a".to_vec());
    assert_eq!(part.attribute("split.n"), Some("1"));
    assert_eq!(part.attribute("split.parent"), Some("records.csv"));

    let merged = part.derive().defragment_with(&keys).content(b"a\nb".to_vec());
    assert_eq!(merged.attribute("filename"), Some("records.csv"), "restored");
    assert_eq!(merged.attribute("source"), Some("upload"), "still inherited");
    for key in ["split.id", "split.n", "split.total", "split.parent"] {
        assert_eq!(merged.attribute(key), None, "{key} should be gone");
    }
}

#[test]
fn defragment_is_defragment_with_the_default_keys() {
    let part = FlowFile::builder()
        .attribute("filename", "records.csv")
        .content(Vec::new())
        .fragments()
        .next_part()
        .content(Vec::new());

    assert_eq!(
        part.derive_keep_uuid().defragment().content(Vec::new()),
        part.derive_keep_uuid()
            .defragment_with(&FragmentKeys::default())
            .content(Vec::new())
    );
}

#[test]
fn defragment_leaves_a_filename_alone_when_there_was_no_split() {
    let merged = FlowFile::builder()
        .attribute("filename", "plain.txt")
        .content(Vec::new())
        .derive()
        .defragment()
        .content(Vec::new());
    assert_eq!(merged.attributes().get("filename"), Some("plain.txt"));
}

#[test]
fn buffered_reads_content_and_sets_size() {
    let flow_file = FlowFile::builder()
        .attribute("k", "v")
        .buffered(ByteReader::new(b"hello"))
        .unwrap();
    assert_eq!(flow_file.size(), 5);
    assert_eq!(flow_file.content().as_slice(), b"hello");
    assert_eq!(flow_file.attributes().get("k"), Some("v"));
}

struct Broken(bool);

impl Reader for Broken {
    fn read(&mut self, limit: usize) -> Result<Vec<u8>, IoError> {
        if self.0 || limit == 0 {
            return Err(IoError::new(ErrorKind::TimedOut, "too slow"));
        }
        self.0 = true;
        Ok(vec![1])
    }
}

#[test]
fn buffered_reports_what_the_reader_fails_with() {
    let err = FlowFile::builder().buffered(Broken(false)).unwrap_err();
    assert_eq!(err, IoError::new(ErrorKind::TimedOut, "too slow"));
}

#[test]
fn a_derived_flow_file_has_a_uuid_of_its_own() {
    let parent = FlowFile::builder().attribute("uuid", "parent").attribute("k", "v").empty();
    let one = parent.derive().empty();
    let other = parent.derive().empty();
    let (a, b) = (one.attribute("uuid").unwrap(), other.attribute("uuid").unwrap());
    assert_ne!(a, "parent");
    assert_ne!(a, b);
    for uuid in [a, b] {
        assert_eq!(uuid.len(), 36);
        for (i, c) in uuid.chars().enumerate() {
            if [8, 13, 18, 23].contains(&i) {
                assert_eq!(c, '-');
            } else {
                assert!(c.is_ascii_digit() || ('a'..='f').contains(&c), "{uuid}");
            }
        }
        assert_eq!(uuid.as_bytes()[14], b'4');
    }
    assert_eq!(one.attribute("k"), Some("v"));
    assert_eq!(parent.derive_keep_uuid().empty().attribute("uuid"), Some("parent"));
    assert_eq!(parent.derive_with_uuid("mine").empty().attribute("uuid"), Some("mine"));
}
