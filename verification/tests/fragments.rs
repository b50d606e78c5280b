use nififf3::{FlowFile, Fragments};

fn parent() -> FlowFile<Vec<u8>> {
    FlowFile::builder()
        .attribute("filename", "archive.tar")
        .attribute("path", "/in")
        .attribute("uuid", "parent-uuid")
        .content(Vec::new())
}

fn pairs(list: &[(&str, &str)]) -> Vec<(String, String)> {
    list.iter().map(|(k, v)| (k.to_string(), v.to_string())).collect()
}

#[test]
fn indexes_are_one_up_and_share_an_identifier() {
    let mut parts = parent().fragments();
    let first = parts.next_part().content(Vec::new());
    let second = parts.next_part().content(Vec::new());

    assert_eq!(first.attribute("fragment.index"), Some("1"));
    assert_eq!(second.attribute("fragment.index"), Some("2"));
    assert_eq!(
        first.attribute("fragment.identifier").unwrap(),
        second.attribute("fragment.identifier").unwrap()
    );
    assert_eq!(parts.produced(), 2);
    assert_eq!(parts.identifier(), first.attribute("fragment.identifier").unwrap());
}

#[test]
fn inherits_attributes_but_not_the_parent_uuid() {
    let parent = parent();
    let child = parent.fragments().next_part().content(Vec::new());

    assert_eq!(child.attribute("path"), Some("/in"));
    assert_eq!(child.attribute("segment.original.filename"), Some("archive.tar"));
    assert_ne!(child.attribute("uuid").unwrap(), "parent-uuid");
}

#[test]
fn terminate_counts_itself_as_the_last_flow_file() {
    let parent = parent();
    let mut parts = parent.fragments();
    let first = parts.next_part().content(b"a".to_vec());
    let second = parts.next_part().content(b"b".to_vec());
    let terminator = parts.terminate();

    assert_eq!(terminator.attribute("fragment.count"), Some("3"));
    assert_eq!(terminator.attribute("fragment.index"), Some("3"));
    assert_eq!(terminator.size(), 0, "it contributes nothing to the merge");

    for part in [&first, &second] {
        assert!(!part.attributes().contains_key("fragment.count"));
    }

    assert_eq!(
        terminator.attribute("fragment.identifier").unwrap(),
        first.attribute("fragment.identifier").unwrap()
    );
    assert_eq!(terminator.attribute("segment.original.filename"), Some("archive.tar"));
    assert_ne!(terminator.attribute("uuid").unwrap(), first.attribute("uuid").unwrap());
}

#[test]
fn terminating_an_empty_split_is_a_bundle_of_one() {
    let terminator = parent().fragments().terminate();
    assert_eq!(terminator.attribute("fragment.count"), Some("1"));
    assert_eq!(terminator.attribute("fragment.index"), Some("1"));
    assert_eq!(terminator.size(), 0);
}

#[test]
fn terminate_honours_custom_attribute_keys() {
    let mut parts = parent().fragments().count_attribute("split.total");
    let _ = parts.next_part();
    let terminator = parts.terminate();

    assert_eq!(terminator.attribute("split.total"), Some("2"));
    assert!(!terminator.attributes().contains_key("fragment.count"));
}

#[test]
fn a_declared_count_leaves_room_for_so_many_parts_and_no_more() {
    let mut parts = parent().fragments().with_count(2);
    assert!(parts.has_room());
    let _ = parts.next_part();
    assert!(parts.has_room());
    assert!(parts.can_end());
    let _ = parts.next_part();
    assert!(!parts.has_room());
    assert!(!parts.can_end());
}

#[test]
fn a_terminated_bundle_declares_the_number_of_flow_files_it_contains() {
    let parent = parent();
    let mut parts = parent.fragments();
    let mut bundle: Vec<_> = (0..4).map(|_| parts.next_part().content(Vec::new())).collect();
    bundle.push(parts.terminate());

    let declared: usize = bundle
        .iter()
        .find_map(|part| part.attributes().get("fragment.count"))
        .expect("some flow file declares the count")
        .parse()
        .unwrap();
    assert_eq!(declared, bundle.len());
}

#[test]
fn a_set_wide_attribute_reaches_every_part() {
    let parent = parent();
    let mut parts = parent
        .fragments()
        .attribute("mime.type", "text/csv")
        .attributes(pairs(&[("run", "42"), ("schema", "v3")]));

    let first = parts.next_part().content(Vec::new());
    let second = parts.next_part().content(Vec::new());
    let terminator = parts.terminate();

    for part in [&first, &second, &terminator] {
        assert_eq!(part.attribute("mime.type"), Some("text/csv"));
        assert_eq!(part.attribute("run"), Some("42"));
        assert_eq!(part.attribute("schema"), Some("v3"));
        assert_eq!(part.attribute("path"), Some("/in"));
        assert!(part.attributes().contains_key("fragment.identifier"));
    }
}

#[test]
fn a_part_overrides_a_set_wide_attribute() {
    let parent = parent();
    let mut parts = parent.fragments().attribute("mime.type", "text/csv");

    let plain = parts.next_part().content(Vec::new());
    let special = parts
        .next_part()
        .attribute("mime.type", "text/plain")
        .content(Vec::new());
    let dropped = parts.next_part().without_attribute("mime.type").content(Vec::new());

    assert_eq!(plain.attribute("mime.type"), Some("text/csv"));
    assert_eq!(special.attribute("mime.type"), Some("text/plain"));
    assert_eq!(dropped.attribute("mime.type"), None);
}

#[test]
fn a_set_can_drop_an_inherited_attribute_from_every_part() {
    let parent = FlowFile::builder()
        .attribute("filename", "records.csv")
        .attribute("record.count", "2")
        .attribute("path", "/in")
        .content(Vec::new());

    let mut parts = parent.fragments().without_attribute("record.count");
    let part = parts.next_part().content(Vec::new());
    let terminator = parts.terminate();

    for one in [&part, &terminator] {
        assert_eq!(one.attribute("record.count"), None);
        assert_eq!(one.attribute("path"), Some("/in"), "only the named one");
    }
    assert_eq!(part.attribute("segment.original.filename"), Some("records.csv"));
}

#[test]
fn a_set_wide_attribute_cannot_displace_the_fragment_attributes() {
    let parent = parent();
    let mut parts = parent
        .fragments()
        .attribute("fragment.index", "99")
        .attribute("fragment.identifier", "mine")
        .with_count(2);

    let first = parts.next_part().content(Vec::new());
    assert_eq!(first.attribute("fragment.index"), "1".into());
    assert_ne!(first.attribute("fragment.identifier"), Some("mine"));
    assert_eq!(first.attribute("fragment.count"), Some("2"));
}

#[test]
fn a_set_wide_attribute_cannot_displace_a_custom_fragment_attribute() {
    let parent = parent();
    let first = custom_keys(parent.fragments())
        .attribute("split.n", "99")
        .next_part()
        .content(Vec::new());
    assert_eq!(first.attribute("split.n"), Some("1"));
}

#[test]
fn count_is_absent_unless_requested() {
    assert!(
        !parent()
            .fragments()
            .next_part()
            .content(Vec::new())
            .attributes()
            .contains_key("fragment.count")
    );
    let child = parent().fragments().with_count(7).next_part().content(Vec::new());
    assert_eq!(child.attribute("fragment.count"), Some("7"));
}

#[test]
fn a_new_split_replaces_the_parents_fragment_attributes() {
    let parent = FlowFile::builder()
        .attribute("fragment.identifier", "old")
        .attribute("fragment.index", "3")
        .attribute("fragment.count", "9")
        .content(Vec::new());
    let child = parent.fragments().next_part().content(Vec::new());

    assert_ne!(child.attribute("fragment.identifier").unwrap(), "old");
    assert_eq!(child.attribute("fragment.index"), Some("1"));
    assert!(!child.attributes().contains_key("fragment.count"));
}

#[test]
fn an_undeclared_count_never_runs_out() {
    let mut parts = parent().fragments();
    for _ in 0..3 {
        let _ = parts.next_part();
    }
    assert_eq!(parts.produced(), 3);
}

#[test]
fn a_new_split_replaces_the_parents_original_filename() {
    let parent = FlowFile::builder()
        .attribute("segment.original.filename", "grandparent.tar")
        .attribute("fragment.index", "3")
        .content(Vec::new());
    let child = parent.fragments().next_part().content(Vec::new());

    assert_eq!(child.attribute("fragment.index"), Some("1"));
    assert!(
        !child.attributes().contains_key("segment.original.filename"),
        "the grandparent's filename must not outlive the split it named"
    );
}

#[test]
fn a_new_split_replaces_the_parents_custom_fragment_attributes() {
    let parent = FlowFile::builder()
        .attribute("split.id", "old")
        .attribute("split.n", "3")
        .attribute("split.total", "9")
        .attribute("split.parent", "grandparent.tar")
        .content(Vec::new());

    let child = custom_keys(parent.fragments()).next_part().content(Vec::new());

    assert_ne!(child.attribute("split.id").unwrap(), "old");
    assert_eq!(child.attribute("split.n"), Some("1"));
    assert!(
        !child.attributes().contains_key("split.total"),
        "a stale count describes a bundle that cannot be reassembled"
    );
    assert!(
        !child.attributes().contains_key("split.parent"),
        "the grandparent's filename must not outlive the split it named"
    );
}

#[test]
fn a_terminator_replaces_the_parents_custom_fragment_attributes() {
    let parent = FlowFile::builder()
        .attribute("split.parent", "grandparent.tar")
        .content(Vec::new());

    let terminator = custom_keys(parent.fragments()).terminate();

    assert_eq!(terminator.attribute("split.total"), Some("1"));
    assert!(!terminator.attributes().contains_key("split.parent"));
}

#[test]
fn custom_keys_still_drop_the_default_fragment_attributes() {
    let parent = FlowFile::builder()
        .attribute("fragment.identifier", "old")
        .attribute("fragment.index", "3")
        .attribute("fragment.count", "9")
        .attribute("segment.original.filename", "grandparent.tar")
        .content(Vec::new());

    let child = custom_keys(parent.fragments()).next_part().content(Vec::new());

    for key in [
        "fragment.identifier",
        "fragment.index",
        "fragment.count",
        "segment.original.filename",
    ] {
        assert!(!child.attributes().contains_key(key), "{key} should be gone");
    }
}

fn custom_keys(fragments: Fragments) -> Fragments {
    fragments
        .identifier_attribute("split.id")
        .index_attribute("split.n")
        .count_attribute("split.total")
        .original_filename_attribute("split.parent")
}

#[test]
fn a_custom_original_filename_key_leaves_no_default_behind() {
    let parent = FlowFile::builder()
        .attribute("filename", "a.tar")
        .attribute("segment.original.filename", "old.tar")
        .content(Vec::new());
    let child = parent
        .fragments()
        .original_filename_attribute("split.parent")
        .next_part()
        .content(Vec::new());

    assert_eq!(child.attribute("split.parent"), Some("a.tar"));
    assert!(
        !child.attributes().contains_key("segment.original.filename"),
        "one original filename per part, under the requested key"
    );
}

#[test]
fn attribute_keys_are_configurable() {
    let child = parent()
        .fragments()
        .with_count(2)
        .identifier_attribute("split.id")
        .index_attribute("split.n")
        .count_attribute("split.total")
        .original_filename_attribute("split.parent")
        .with_identifier("fixed")
        .next_part()
        .content(Vec::new());

    assert_eq!(child.attribute("split.id"), Some("fixed"));
    assert_eq!(child.attribute("split.n"), Some("1"));
    assert_eq!(child.attribute("split.total"), Some("2"));
    assert_eq!(child.attribute("split.parent"), Some("archive.tar"));
    assert!(!child.attributes().contains_key("fragment.index"));
}

#[test]
fn builder_attributes_win_over_inherited_ones() {
    let child = parent()
        .fragments()
        .next_part()
        .attribute("filename", "entry.txt")
        .without_attribute("path")
        .content(Vec::new());

    assert_eq!(child.attribute("filename"), Some("entry.txt"));
    assert!(!child.attributes().contains_key("path"));
}

#[test]
fn a_given_original_filename_is_used_for_every_part() {
    let mut parts = parent().fragments().with_original_filename("renamed.tar").with_count(2);
    for index in ["1", "2"] {
        let part = parts.next_part().content(Vec::new());
        assert_eq!(part.attribute("segment.original.filename"), Some("renamed.tar"));
        assert_eq!(part.attribute("fragment.index"), Some(index));
        assert_eq!(part.attribute("fragment.count"), Some("2"));
        assert_eq!(part.attribute("filename"), Some("archive.tar"));
    }
}

#[test]
fn a_minted_uuid_has_the_form_of_a_random_one() {
    let parent = parent();
    let one = parent.derive().content(Vec::new());
    let other = parent.derive().content(Vec::new());
    for flow_file in [&one, &other] {
        let uuid = flow_file.attribute("uuid").unwrap();
        assert_eq!(uuid.len(), 36);
        for (at, c) in uuid.chars().enumerate() {
            match at {
                8 | 13 | 18 | 23 => assert_eq!(c, '-'),
                14 => assert_eq!(c, '4'),
                19 => assert!("89ab".contains(c)),
                _ => assert!(c.is_ascii_digit() || ('a'..='f').contains(&c)),
            }
        }
    }
    assert_ne!(one.attribute("uuid"), other.attribute("uuid"));
}
