use nififf3::format::{can_encode, encode_header, field_len_bytes, header_len, write_field_len};
use nififf3::Attributes;

fn field_len(len: usize) -> Vec<u8> {
    let mut buf = Vec::new();
    write_field_len(&mut buf, len);
    assert_eq!(buf.len(), field_len_bytes(len));
    buf
}

fn map(pairs: Vec<(String, String)>) -> Attributes {
    let mut attributes = Attributes::new();
    attributes.extend(pairs);
    attributes
}

#[test]
fn short_field_lengths_use_two_bytes() {
    assert_eq!(field_len(0), [0x00, 0x00]);
    assert_eq!(field_len(5), [0x00, 0x05]);
    assert_eq!(field_len(0xFFFE), [0xFF, 0xFE]);
}

#[test]
fn long_field_lengths_use_marker_and_four_bytes() {
    assert_eq!(field_len(0xFFFF), [0xFF, 0xFF, 0x00, 0x00, 0xFF, 0xFF]);
    assert_eq!(field_len(70_000), [0xFF, 0xFF, 0x00, 0x01, 0x11, 0x70]);
}

#[test]
fn the_predicted_header_length_is_the_produced_one() {
    let cases: [Vec<(String, String)>; 5] = [
        vec![],
        vec![("k".into(), "v".into())],
        vec![("path".into(), "x".into()), ("a".into(), "b".into())],
        vec![("é→🙂".into(), "🙂".into())],
        vec![
            ("short".into(), "v".repeat(0xFFFE)),
            ("long".into(), "v".repeat(0xFFFF)),
            ("v".repeat(0x1_0000), "x".into()),
        ],
    ];

    for attributes in cases {
        let map = map(attributes);
        assert!(can_encode(&map));
        assert_eq!(
            encode_header(&map, 7).len() as u64,
            header_len(&map),
            "{} attributes",
            map.len()
        );
    }
}

#[test]
fn the_predicted_length_holds_across_the_count_boundary() {
    for count in [0xFFFE, 0xFFFF, 0x1_0000] {
        let map = map((0..count).map(|i| (format!("k{i}"), "v".to_string())).collect());
        assert_eq!(encode_header(&map, 0).len() as u64, header_len(&map), "{count}");
    }
}

#[test]
fn header_layout() {
    let attributes = map(vec![("path".to_string(), "x".to_string())]);
    let header = encode_header(&attributes, 5);
    let mut expected = b"NiFiFF3".to_vec();
    expected.extend_from_slice(&[0x00, 0x01]);
    expected.extend_from_slice(&[0x00, 0x04]);
    expected.extend_from_slice(b"path");
    expected.extend_from_slice(&[0x00, 0x01]);
    expected.extend_from_slice(b"x");
    expected.extend_from_slice(&[0, 0, 0, 0, 0, 0, 0, 5]);
    assert_eq!(header, expected);
}
