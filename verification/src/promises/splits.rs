//! Building flow files, deriving them from each other, and splitting one into
//! many.

use vstd::prelude::*;

use crate::attributes::{insert_all, text_pairs, AttributeMap};
use crate::attributes::Attributes;
use crate::builder::FlowFileBuilder;
use crate::flow_file::FlowFile;
use crate::fragments::{FragmentKeys, Fragments};
use crate::laws::law_default_keys_are_apart;
use crate::text::decimal;
use super::numbers::{in_decimal, lemma_decimal};

verus! {

/// The map has this value under this key.
pub open spec fn maps(m: AttributeMap, key: Seq<char>, value: Seq<char>) -> bool {
    m.dom().contains(key) && m[key] == value
}

/// Both maps say the same of this key.
pub open spec fn agree_on(m: AttributeMap, n: AttributeMap, key: Seq<char>) -> bool {
    &&& m.dom().contains(key) <==> n.dom().contains(key)
    &&& m.dom().contains(key) ==> m[key] == n[key]
}

/// One of the keys that a split writes.
pub open spec fn is_split_key(keys: &FragmentKeys, key: Seq<char>) -> bool {
    key == keys.identifier@ || key == keys.index@ || key == keys.count@ || key == keys.original_filename@
}

/// The keys of a split are told apart from each other and from `uuid` and
/// `filename`.
pub open spec fn told_apart(keys: &FragmentKeys) -> bool {
    &&& keys.identifier@ != keys.index@
    &&& keys.identifier@ != keys.count@
    &&& keys.identifier@ != keys.original_filename@
    &&& keys.index@ != keys.count@
    &&& keys.index@ != keys.original_filename@
    &&& keys.count@ != keys.original_filename@
    &&& !is_split_key(keys, "uuid"@)
    &&& !is_split_key(keys, "filename"@)
}

/// A part of a split says its index, and its count if it has one, in decimal
/// under their keys, the identifier under its key, and who it is under `uuid`.
/// It has no count if none was given. Under any other key it says what the
/// split inherited.
pub proof fn law_a_part_is_numbered(
    split: &Fragments,
    keys: &FragmentKeys,
    identifier: &str,
    index: u64,
    count: Option<u64>,
    uuid: String,
    part: FlowFileBuilder,
)
    requires
        call_ensures(Fragments::keys, (split,), keys),
        call_ensures(Fragments::identifier, (split,), identifier),
        told_apart(keys),
        call_ensures(Fragments::part, (split, index, count, uuid), part),
    ensures
        part@.dom().contains(keys.index@) && in_decimal(part@[keys.index@], index as nat),
        count matches Some(n) ==> part@.dom().contains(keys.count@) && in_decimal(part@[keys.count@], n as nat),
        count is None ==> !part@.dom().contains(keys.count@),
        maps(part@, keys.identifier@, identifier@),
        maps(part@, "uuid"@, uuid@),
        split@.original_filename matches Some(name) ==> maps(part@, keys.original_filename@, name),
        split@.original_filename is None ==> !part@.dom().contains(keys.original_filename@),
        forall|key: Seq<char>| !is_split_key(keys, key) && key != "uuid"@ ==> #[trigger] agree_on(part@, split@.attributes, key),
{
    lemma_decimal(index as nat);
    if let Some(n) = count {
        lemma_decimal(n as nat);
    }
    assert(split@.keys == keys@);
}

/// The next part of a split has the next index, and the count that was
/// declared, if one was.
pub proof fn law_the_next_part_has_the_next_index(
    split: &mut Fragments,
    keys: &FragmentKeys,
    part: FlowFileBuilder,
)
    requires
        keys@ == old(split)@.keys,
        told_apart(keys),
        old(split)@.index < u64::MAX,
        call_ensures(Fragments::next_part, (split,), part),
    ensures
        final(split)@.index == old(split)@.index + 1,
        final(split)@.identifier == old(split)@.identifier,
        final(split)@.count == old(split)@.count,
        final(split)@.original_filename == old(split)@.original_filename,
        final(split)@.attributes == old(split)@.attributes,
        final(split)@.keys == old(split)@.keys,
        part@.dom().contains(keys.index@) && in_decimal(part@[keys.index@], old(split)@.index as nat + 1),
        old(split)@.count matches Some(n) ==> part@.dom().contains(keys.count@) && in_decimal(part@[keys.count@], n as nat),
        old(split)@.count is None ==> !part@.dom().contains(keys.count@),
        maps(part@, keys.identifier@, old(split)@.identifier),
        part@.dom().contains("uuid"@) && has_uuid_form(part@["uuid"@]),
        old(split)@.original_filename matches Some(name) ==> maps(part@, keys.original_filename@, name),
        old(split)@.original_filename is None ==> !part@.dom().contains(keys.original_filename@),
        forall|key: Seq<char>|
            !is_split_key(keys, key) && key != "uuid"@ ==> #[trigger] agree_on(part@, old(split)@.attributes, key),
{
    lemma_decimal(old(split)@.index as nat + 1);
    if let Some(n) = old(split)@.count {
        lemma_decimal(n as nat);
    }
}

/// 36 characters, with a hyphen after the first eight, four, four and four
/// others.
pub open spec fn has_uuid_form(text: Seq<char>) -> bool {
    &&& text.len() == 36
    &&& text[8] == '-'
    &&& text[13] == '-'
    &&& text[18] == '-'
    &&& text[23] == '-'
}

/// The end of a split is an empty flow file that counts itself: its index and
/// the count are one more than the parts before it.
pub proof fn law_the_end_of_a_split_counts_itself(split: Fragments, keys: &FragmentKeys, end: FlowFile<Vec<u8>>)
    requires
        keys@ == split@.keys,
        told_apart(keys),
        split@.index < u64::MAX,
        call_ensures(Fragments::terminate, (split,), end),
    ensures
        end.size == 0,
        end.content@.len() == 0,
        end.attributes@.dom().contains(keys.index@) && in_decimal(end.attributes@[keys.index@], split@.index as nat + 1),
        end.attributes@.dom().contains(keys.count@) && in_decimal(end.attributes@[keys.count@], split@.index as nat + 1),
        maps(end.attributes@, keys.identifier@, split@.identifier),
        end.attributes@.dom().contains("uuid"@) && has_uuid_form(end.attributes@["uuid"@]),
        split@.original_filename matches Some(name) ==> maps(end.attributes@, keys.original_filename@, name),
        split@.original_filename is None ==> !end.attributes@.dom().contains(keys.original_filename@),
        forall|key: Seq<char>|
            !is_split_key(keys, key) && key != "uuid"@ ==> #[trigger] agree_on(end.attributes@, split@.attributes, key),
{
    lemma_decimal(split@.index as nat + 1);
}

/// One of the keys that NiFi writes on a part.
pub open spec fn is_nifi_key(key: Seq<char>) -> bool {
    key == "fragment.identifier"@ || key == "fragment.index"@ || key == "fragment.count"@ || key == "segment.original.filename"@
}

/// A split starts at nothing, with no count, with NiFi's keys, with the file
/// name of what is split, and with its other attributes.
pub proof fn law_a_split_starts_from_its_parent(attributes: &Attributes, identifier: String, split: Fragments, produced: u64)
    requires
        call_ensures(Fragments::identified, (attributes, identifier), split),
        call_ensures(Fragments::produced, (&split,), produced),
    ensures
        produced == 0,
        split@.index == 0,
        split@.count is None,
        split@.identifier == identifier@,
        split@.keys.identifier == "fragment.identifier"@,
        split@.keys.index == "fragment.index"@,
        split@.keys.count == "fragment.count"@,
        split@.keys.original_filename == "segment.original.filename"@,
        attributes@.dom().contains("filename"@) ==> split@.original_filename == Some(attributes@["filename"@]),
        !attributes@.dom().contains("filename"@) ==> split@.original_filename is None,
        forall|key: Seq<char>| is_nifi_key(key) ==> !#[trigger] split@.attributes.dom().contains(key),
        forall|key: Seq<char>| !is_nifi_key(key) ==> #[trigger] agree_on(split@.attributes, attributes@, key),
{
}

/// Starting a split of a flow file starts it from its attributes, under an
/// identifier in the form of a UUID.
pub proof fn law_a_flow_file_is_split_by_its_attributes(f: &FlowFile<Vec<u8>>, split: Fragments)
    requires
        call_ensures(FlowFile::<Vec<u8>>::fragments, (f,), split),
    ensures
        has_uuid_form(split@.identifier),
        split@.index == 0,
        split@.count is None,
        split@.keys.identifier == "fragment.identifier"@,
        split@.keys.index == "fragment.index"@,
        split@.keys.count == "fragment.count"@,
        split@.keys.original_filename == "segment.original.filename"@,
        f.attributes@.dom().contains("filename"@) ==> split@.original_filename == Some(f.attributes@["filename"@]),
        !f.attributes@.dom().contains("filename"@) ==> split@.original_filename is None,
        forall|key: Seq<char>| is_nifi_key(key) ==> !#[trigger] split@.attributes.dom().contains(key),
        forall|key: Seq<char>| !is_nifi_key(key) ==> #[trigger] agree_on(split@.attributes, f.attributes@, key),
{
}

/// Each setting of a split sets one thing and keeps the others.
pub proof fn law_a_split_is_set_up_one_thing_at_a_time(
    split: Fragments,
    text: &str,
    count: u64,
    identified: Fragments,
    counted: Fragments,
    named: Fragments,
    keys: FragmentKeys,
    keyed: Fragments,
)
    requires
        call_ensures(Fragments::with_identifier, (split, text), identified),
        call_ensures(Fragments::with_count, (split, count), counted),
        call_ensures(Fragments::with_original_filename, (split, text), named),
        call_ensures(Fragments::with_keys, (split, keys), keyed),
    ensures
        identified@.identifier == text@,
        identified@.count == split@.count,
        identified@.original_filename == split@.original_filename,
        identified@.index == split@.index,
        identified@.attributes == split@.attributes,
        identified@.keys == split@.keys,
        counted@.identifier == split@.identifier,
        counted@.count == Some(count),
        counted@.original_filename == split@.original_filename,
        counted@.index == split@.index,
        counted@.attributes == split@.attributes,
        counted@.keys == split@.keys,
        named@.identifier == split@.identifier,
        named@.count == split@.count,
        named@.original_filename == Some(text@),
        named@.index == split@.index,
        named@.attributes == split@.attributes,
        named@.keys == split@.keys,
        keyed@.identifier == split@.identifier,
        keyed@.count == split@.count,
        keyed@.original_filename == split@.original_filename,
        keyed@.index == split@.index,
        keyed@.attributes == split@.attributes,
        keyed@.keys.identifier == keys.identifier@,
        keyed@.keys.index == keys.index@,
        keyed@.keys.count == keys.count@,
        keyed@.keys.original_filename == keys.original_filename@,
{
}

/// Each key of a split is set by itself.
pub proof fn law_the_keys_of_a_split_are_set_one_at_a_time(
    split: Fragments,
    key: &str,
    identifier: Fragments,
    index: Fragments,
    count: Fragments,
    original_filename: Fragments,
)
    requires
        call_ensures(Fragments::identifier_attribute, (split, key), identifier),
        call_ensures(Fragments::index_attribute, (split, key), index),
        call_ensures(Fragments::count_attribute, (split, key), count),
        call_ensures(Fragments::original_filename_attribute, (split, key), original_filename),
    ensures
        identifier@.keys.identifier == key@,
        identifier@.keys.index == split@.keys.index,
        identifier@.keys.count == split@.keys.count,
        identifier@.keys.original_filename == split@.keys.original_filename,
        index@.keys.identifier == split@.keys.identifier,
        index@.keys.index == key@,
        index@.keys.count == split@.keys.count,
        index@.keys.original_filename == split@.keys.original_filename,
        count@.keys.identifier == split@.keys.identifier,
        count@.keys.index == split@.keys.index,
        count@.keys.count == key@,
        count@.keys.original_filename == split@.keys.original_filename,
        original_filename@.keys.identifier == split@.keys.identifier,
        original_filename@.keys.index == split@.keys.index,
        original_filename@.keys.count == split@.keys.count,
        original_filename@.keys.original_filename == key@,
        identifier@.attributes == split@.attributes && index@.attributes == split@.attributes && count@.attributes
            == split@.attributes && original_filename@.attributes == split@.attributes,
        identifier@.index == split@.index && index@.index == split@.index && count@.index == split@.index
            && original_filename@.index == split@.index,
        identifier@.count == split@.count && index@.count == split@.count && count@.count == split@.count
            && original_filename@.count == split@.count,
        identifier@.identifier == split@.identifier && index@.identifier == split@.identifier && count@.identifier
            == split@.identifier && original_filename@.identifier == split@.identifier,
        identifier@.original_filename == split@.original_filename && index@.original_filename == split@.original_filename
            && count@.original_filename == split@.original_filename && original_filename@.original_filename
            == split@.original_filename,
{
}

/// The keys by themselves are set in the same way, and start as NiFi's.
pub proof fn law_keys_are_set_one_at_a_time(
    keys: FragmentKeys,
    key: &str,
    identifier: FragmentKeys,
    index: FragmentKeys,
    count: FragmentKeys,
    original_filename: FragmentKeys,
    nifi: FragmentKeys,
)
    requires
        call_ensures(FragmentKeys::identifier_attribute, (keys, key), identifier),
        call_ensures(FragmentKeys::index_attribute, (keys, key), index),
        call_ensures(FragmentKeys::count_attribute, (keys, key), count),
        call_ensures(FragmentKeys::original_filename_attribute, (keys, key), original_filename),
        call_ensures(FragmentKeys::default, (), nifi),
    ensures
        identifier.identifier@ == key@ && identifier.index@ == keys.index@ && identifier.count@ == keys.count@
            && identifier.original_filename@ == keys.original_filename@,
        index.identifier@ == keys.identifier@ && index.index@ == key@ && index.count@ == keys.count@
            && index.original_filename@ == keys.original_filename@,
        count.identifier@ == keys.identifier@ && count.index@ == keys.index@ && count.count@ == key@
            && count.original_filename@ == keys.original_filename@,
        original_filename.identifier@ == keys.identifier@ && original_filename.index@ == keys.index@
            && original_filename.count@ == keys.count@ && original_filename.original_filename@ == key@,
        nifi.identifier@ == "fragment.identifier"@ && nifi.index@ == "fragment.index"@ && nifi.count@ == "fragment.count"@
            && nifi.original_filename@ == "segment.original.filename"@,
{
    let a = identifier@;
    let b = index@;
    let c = count@;
    let d = original_filename@;
    let e = nifi@;
}

/// A split has room for a part exactly while fewer were produced than declared,
/// and its end fits exactly where it is the one that was declared last.
pub proof fn law_a_split_ends_where_it_was_declared_to(split: &Fragments, produced: u64, room: bool, end: bool)
    requires
        call_ensures(Fragments::produced, (split,), produced),
        call_ensures(Fragments::has_room, (split,), room),
        call_ensures(Fragments::can_end, (split,), end),
    ensures
        produced == split@.index,
        split@.count matches Some(n) ==> (room <==> produced < n) && (end <==> produced + 1 == n),
        split@.count is None ==> (room <==> produced < u64::MAX) && (end <==> produced < u64::MAX),
{
}

/// An attribute of a split is set or dropped alone.
pub proof fn law_attributes_of_a_split_are_set_alone(
    split: Fragments,
    key: &str,
    value: &str,
    with: Fragments,
    without: Fragments,
)
    requires
        call_ensures(Fragments::attribute, (split, key, value), with),
        call_ensures(Fragments::without_attribute, (split, key), without),
    ensures
        maps(with@.attributes, key@, value@),
        !without@.attributes.dom().contains(key@),
        forall|other: Seq<char>| other != key@ ==> #[trigger] agree_on(with@.attributes, split@.attributes, other),
        forall|other: Seq<char>| other != key@ ==> #[trigger] agree_on(without@.attributes, split@.attributes, other),
        with@.identifier == split@.identifier && with@.count == split@.count && with@.index == split@.index && with@.keys
            == split@.keys && with@.original_filename == split@.original_filename,
        without@.identifier == split@.identifier && without@.count == split@.count && without@.index == split@.index
            && without@.keys == split@.keys && without@.original_filename == split@.original_filename,
{
}

/// Undoing a split drops what it numbered. The name it recorded, if it did, is
/// the file name again, and everything else stays.
pub proof fn law_undoing_a_split_restores_the_name(builder: FlowFileBuilder, keys: &FragmentKeys, undone: FlowFileBuilder)
    requires
        told_apart(keys),
        call_ensures(FlowFileBuilder::defragment_with, (builder, keys), undone),
    ensures
        forall|key: Seq<char>| is_split_key(keys, key) ==> !#[trigger] undone@.dom().contains(key),
        builder@.dom().contains(keys.original_filename@) ==> maps(undone@, "filename"@, builder@[keys.original_filename@]),
        !builder@.dom().contains(keys.original_filename@) ==> agree_on(undone@, builder@, "filename"@),
        forall|key: Seq<char>| !is_split_key(keys, key) && key != "filename"@ ==> #[trigger] agree_on(undone@, builder@, key),
{
}

/// The same with NiFi's keys.
pub proof fn law_undoing_a_nifi_split_restores_the_name(builder: FlowFileBuilder, undone: FlowFileBuilder)
    requires
        call_ensures(FlowFileBuilder::defragment, (builder,), undone),
    ensures
        forall|key: Seq<char>| is_nifi_key(key) ==> !#[trigger] undone@.dom().contains(key),
        builder@.dom().contains("segment.original.filename"@) ==> maps(
            undone@,
            "filename"@,
            builder@["segment.original.filename"@],
        ),
        !builder@.dom().contains("segment.original.filename"@) ==> agree_on(undone@, builder@, "filename"@),
        forall|key: Seq<char>| !is_nifi_key(key) && key != "filename"@ ==> #[trigger] agree_on(undone@, builder@, key),
{
    law_default_keys_are_apart();
}

/// An attribute of a builder is set or dropped alone, and a builder starts with
/// none.
pub proof fn law_attributes_are_built_one_at_a_time(
    empty: FlowFileBuilder,
    builder: FlowFileBuilder,
    key: &str,
    value: &str,
    with: FlowFileBuilder,
    without: FlowFileBuilder,
)
    requires
        call_ensures(FlowFileBuilder::new, (), empty),
        call_ensures(FlowFileBuilder::attribute, (builder, key, value), with),
        call_ensures(FlowFileBuilder::without_attribute, (builder, key), without),
    ensures
        forall|other: Seq<char>| !#[trigger] empty@.dom().contains(other),
        maps(with@, key@, value@),
        !without@.dom().contains(key@),
        forall|other: Seq<char>| other != key@ ==> #[trigger] agree_on(with@, builder@, other),
        forall|other: Seq<char>| other != key@ ==> #[trigger] agree_on(without@, builder@, other),
{
}

/// What the last of some pairs with this key says, or what was there before if
/// none has it.
pub open spec fn put_in(pairs: Seq<(String, String)>, before: AttributeMap, after: AttributeMap) -> bool {
    &&& forall|key: Seq<char>|
        (forall|i: int| 0 <= i < pairs.len() ==> #[trigger] pairs[i].0@ != key) ==> #[trigger] agree_on(after, before, key)
    &&& forall|i: int|
        0 <= i < pairs.len() && (forall|j: int| i < j < pairs.len() ==> #[trigger] pairs[j].0@ != pairs[i].0@) ==> maps(
            after,
            #[trigger] pairs[i].0@,
            pairs[i].1@,
        )
}

pub proof fn lemma_put_in(pairs: Seq<(String, String)>, before: AttributeMap)
    ensures
        put_in(pairs, before, insert_all(before, text_pairs(pairs))),
    decreases pairs.len(),
{
    let after = insert_all(before, text_pairs(pairs));
    if pairs.len() > 0 {
        let less = pairs.drop_last();
        let last = pairs.len() - 1;
        lemma_put_in(less, before);
        assert(text_pairs(pairs).drop_last() =~= text_pairs(less));
        let between = insert_all(before, text_pairs(less));
        assert(after == between.insert(pairs[last].0@, pairs[last].1@));
        assert forall|key: Seq<char>|
            (forall|i: int| 0 <= i < pairs.len() ==> #[trigger] pairs[i].0@ != key) implies #[trigger] agree_on(after, before, key) by {
            assert(pairs[last].0@ != key);
            assert forall|i: int| 0 <= i < less.len() implies #[trigger] less[i].0@ != key by {
                assert(less[i] == pairs[i]);
            }
            assert(agree_on(between, before, key));
        }
        assert forall|i: int|
            0 <= i < pairs.len() && (forall|j: int| i < j < pairs.len() ==> #[trigger] pairs[j].0@ != pairs[i].0@) implies maps(
            after,
            #[trigger] pairs[i].0@,
            pairs[i].1@,
        ) by {
            if i < last {
                assert(pairs[last].0@ != pairs[i].0@);
                assert(less[i] == pairs[i]);
                assert forall|j: int| i < j < less.len() implies #[trigger] less[j].0@ != less[i].0@ by {
                    assert(less[j] == pairs[j]);
                }
                assert(maps(between, less[i].0@, less[i].1@));
            }
        }
    }
}

/// A list of pairs is put in from its first to its last, so that a later pair
/// wins over an earlier one with its key. Other attributes stay.
pub proof fn law_a_list_of_attributes_is_put_in_order(
    builder: FlowFileBuilder,
    split: Fragments,
    pairs: Vec<(String, String)>,
    built: FlowFileBuilder,
    set: Fragments,
)
    requires
        call_ensures(FlowFileBuilder::attributes, (builder, pairs), built),
        call_ensures(Fragments::attributes, (split, pairs), set),
    ensures
        put_in(pairs@, builder@, built@),
        put_in(pairs@, split@.attributes, set@.attributes),
        set@.identifier == split@.identifier && set@.count == split@.count && set@.index == split@.index && set@.keys
            == split@.keys && set@.original_filename == split@.original_filename,
{
    lemma_put_in(pairs@, builder@);
    lemma_put_in(pairs@, split@.attributes);
}

/// A flow file is built with the attributes of its builder, its content, and a
/// size that is the number of its bytes.
pub proof fn law_a_built_flow_file_declares_its_content(
    builder: FlowFileBuilder,
    content: Vec<u8>,
    full: FlowFile<Vec<u8>>,
    empty: FlowFile<Vec<u8>>,
    size: u64,
    sized: FlowFile<Vec<u8>>,
)
    requires
        call_ensures(FlowFileBuilder::content, (builder, content), full),
        call_ensures(FlowFileBuilder::empty, (builder,), empty),
        call_ensures(FlowFileBuilder::reader::<Vec<u8>>, (builder, content, size), sized),
    ensures
        full.size == full.content@.len(),
        full.content@ == content@,
        full.attributes@ == builder@,
        empty.size == 0,
        empty.content@.len() == 0,
        empty.attributes@ == builder@,
        sized.size == size,
        sized.content == content,
        sized.attributes@ == builder@,
{
}

/// A flow file that is derived from another has its attributes, but for who it
/// is, and that too if it is to stay the same.
pub proof fn law_a_derived_flow_file_inherits(
    f: &FlowFile<Vec<u8>>,
    uuid: &str,
    given: FlowFileBuilder,
    fresh: FlowFileBuilder,
    same: FlowFileBuilder,
)
    requires
        call_ensures(FlowFile::<Vec<u8>>::derive_with_uuid, (f, uuid), given),
        call_ensures(FlowFile::<Vec<u8>>::derive, (f,), fresh),
        call_ensures(FlowFile::<Vec<u8>>::derive_keep_uuid, (f,), same),
    ensures
        maps(given@, "uuid"@, uuid@),
        fresh@.dom().contains("uuid"@) && has_uuid_form(fresh@["uuid"@]),
        forall|key: Seq<char>| key != "uuid"@ ==> #[trigger] agree_on(given@, f.attributes@, key),
        forall|key: Seq<char>| key != "uuid"@ ==> #[trigger] agree_on(fresh@, f.attributes@, key),
        forall|key: Seq<char>| #[trigger] agree_on(same@, f.attributes@, key),
{
}

} // verus!
