use nififf3::{Attributes, Error, FlowFile, Limits};

#[test]
fn limits_can_be_set_and_cleared() {
    let limits = Limits::recommended()
        .with_max_attributes(Some(64))
        .with_max_content_len(Some(1024))
        .with_max_attribute_len(None);

    assert_eq!(limits.max_attributes(), Some(64));
    assert_eq!(limits.max_content_len(), Some(1024));
    assert_eq!(limits.max_attribute_len(), None, "cleared, not replaced");
    assert_eq!(limits.max_total_attribute_len(), Some(2 << 20));
}

#[test]
fn unlimited_is_the_neutral_starting_point() {
    let limits = Limits::unlimited().with_max_attributes(Some(10));
    assert_eq!(limits.max_attributes(), Some(10));
    assert_eq!(limits.max_attribute_len(), None);
    assert_eq!(limits.max_total_attribute_len(), None);
    assert_eq!(limits.max_content_len(), None);
}

#[test]
fn default_is_recommended() {
    assert_eq!(Limits::default(), Limits::recommended());
}

#[test]
fn check_matches_what_the_parser_enforces() {
    let flow_file = FlowFile::builder()
        .attributes((0..10).map(|i| (format!("k{i}"), "v".repeat(100))).collect())
        .content(b"hello".to_vec());
    let bytes = flow_file.to_bytes();

    for limits in [
        Limits::unlimited().with_max_attributes(Some(5)),
        Limits::unlimited().with_max_attribute_len(Some(10)),
        Limits::unlimited().with_max_total_attribute_len(Some(256)),
        Limits::unlimited().with_max_content_len(Some(2)),
        Limits::recommended(),
    ] {
        let parsed = FlowFile::from_bytes_with_limits(&bytes, limits);
        let checked = limits.check(flow_file.attributes(), flow_file.size());
        assert_eq!(
            parsed.is_err(),
            checked.is_err(),
            "{limits:?}: parser {parsed:?}, check {checked:?}"
        );
        if let (Err(parsed), Err(checked)) = (parsed, checked) {
            assert_eq!(
                std::mem::discriminant(&parsed),
                std::mem::discriminant(&checked),
                "{limits:?}: {parsed:?} vs {checked:?}"
            );
        }
    }
}

#[test]
fn check_looks_at_the_count_before_anything_else() {
    let mut attributes = Attributes::new();
    attributes.insert("key".to_string(), "value".to_string());
    attributes.insert("other".to_string(), "x".to_string());
    let limits = Limits::unlimited()
        .with_max_attributes(Some(1))
        .with_max_attribute_len(Some(0))
        .with_max_total_attribute_len(Some(0))
        .with_max_content_len(Some(0));

    assert_eq!(
        limits.check(&attributes, 1),
        Err(Error::TooManyAttributes { count: 2, limit: 1 })
    );
    let limits = limits.with_max_attributes(None);
    assert_eq!(limits.check(&attributes, 1), Err(Error::AttributeTooLong { len: 3, limit: 0 }));
    let limits = limits.with_max_attribute_len(Some(5));
    assert_eq!(limits.check(&attributes, 1), Err(Error::HeaderTooLarge { len: 14, limit: 0 }));
    let limits = limits.with_max_total_attribute_len(Some(14));
    assert_eq!(limits.check(&attributes, 1), Err(Error::ContentTooLarge { size: 1, limit: 0 }));
    assert_eq!(limits.check(&attributes, 0), Ok(()));
}
