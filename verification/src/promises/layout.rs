//! The bytes of a flow file, and what is made of them.

use vstd::prelude::*;
use vstd::arithmetic::power::pow;
use vstd::utf8::*;

use crate::attributes::Attributes;
use crate::attributes::{insert_all, lemma_entries_map, lemma_sorted_exists, sorted_entries, AttributeMap, Entries};
use crate::decode::text;
use crate::flow_file::FlowFile;
use crate::format::{entries_wire, header_wire};
use crate::format::{can_encode, encode_header, encode_header_into, header_len};
use crate::laws::lemma_front_wire;
use crate::text::key_lt;
use super::numbers::{
    big_endian, comes_before, lemma_big_endian, lemma_comes_before, lemma_length_prefix, length_prefix, prefixed,
};

verus! {

/// How many bytes a text takes in UTF-8.
pub open spec fn size_of_text(text: Seq<char>) -> nat {
    encode_utf8(text).len()
}

/// Keys and values one after the other, each after its length.
pub open spec fn listing(entries: Entries) -> Seq<u8>
    decreases entries.len(),
{
    if entries.len() == 0 {
        Seq::empty()
    } else {
        prefixed(entries[0].0) + prefixed(entries[0].1) + listing(entries.drop_first())
    }
}

/// A header with these attributes in this order: `NiFiFF3`, how many there are,
/// the attributes, and the content size in eight bytes.
pub open spec fn head(entries: Entries, size: nat) -> Seq<u8> {
    seq![78u8, 105u8, 70u8, 105u8, 70u8, 70u8, 51u8] + length_prefix(entries.len()) + listing(entries) + big_endian(size, 8)
}

/// The entries are exactly those of the map, each once, in the order of the
/// UTF-8 bytes of their keys.
pub open spec fn in_order(entries: Entries, m: AttributeMap) -> bool {
    &&& entries.len() == m.len()
    &&& forall|i: int, j: int|
        0 <= i < j < entries.len() ==> comes_before(encode_utf8(#[trigger] entries[i].0), encode_utf8(#[trigger] entries[j].0))
    &&& forall|i: int| 0 <= i < entries.len() ==> m.dom().contains(#[trigger] entries[i].0) && m[entries[i].0] == entries[i].1
    &&& forall|k: Seq<char>| #[trigger] m.dom().contains(k) ==> exists|i: int| 0 <= i < entries.len() && #[trigger] entries[i].0 == k
}

/// The map holds what was said last of each key in the entries, and nothing
/// else.
pub open spec fn last_wins(entries: Entries, m: AttributeMap) -> bool {
    &&& forall|k: Seq<char>| #[trigger] m.dom().contains(k) <==> exists|i: int| 0 <= i < entries.len() && #[trigger] entries[i].0 == k
    &&& forall|i: int|
        0 <= i < entries.len() && (forall|j: int| i < j < entries.len() ==> #[trigger] entries[j].0 != entries[i].0)
            ==> m[#[trigger] entries[i].0] == entries[i].1
}

pub proof fn lemma_last_wins(entries: Entries)
    ensures
        last_wins(entries, insert_all(Map::empty(), entries)),
    decreases entries.len(),
{
    let m = insert_all(Map::<Seq<char>, Seq<char>>::empty(), entries);
    if entries.len() > 0 {
        let less = entries.drop_last();
        let before = insert_all(Map::<Seq<char>, Seq<char>>::empty(), less);
        lemma_last_wins(less);
        let last = entries.len() - 1;
        assert forall|k: Seq<char>| #[trigger] m.dom().contains(k) <==> exists|i: int| 0 <= i < entries.len() && #[trigger] entries[i].0
            == k by {
            if m.dom().contains(k) {
                if k == entries[last].0 {
                } else {
                    assert(before.dom().contains(k));
                    let i = choose|i: int| 0 <= i < less.len() && #[trigger] less[i].0 == k;
                    assert(entries[i].0 == k);
                }
            }
            if exists|i: int| 0 <= i < entries.len() && #[trigger] entries[i].0 == k {
                let i = choose|i: int| 0 <= i < entries.len() && #[trigger] entries[i].0 == k;
                if i < last {
                    assert(less[i].0 == k);
                    assert(before.dom().contains(k));
                }
            }
        }
        assert forall|i: int|
            0 <= i < entries.len() && (forall|j: int| i < j < entries.len() ==> #[trigger] entries[j].0 != entries[i].0) implies m[#[trigger] entries[i].0]
            == entries[i].1 by {
            if i < last {
                assert(entries[last].0 != entries[i].0);
                assert(less[i] == entries[i]);
                assert forall|j: int| i < j < less.len() implies #[trigger] less[j].0 != less[i].0 by {
                    assert(less[j] == entries[j]);
                }
                assert(before[less[i].0] == less[i].1);
            }
        }
    }
}

pub proof fn lemma_listing(entries: Entries)
    ensures
        entries_wire(entries) == listing(entries),
    decreases entries.len(),
{
    if entries.len() > 0 {
        lemma_front_wire(entries);
        lemma_listing(entries.drop_first());
        lemma_length_prefix(size_of_text(entries[0].0));
        lemma_length_prefix(size_of_text(entries[0].1));
    }
}

pub proof fn lemma_head(attributes: AttributeMap, size: u64) -> (entries: Entries)
    requires
        attributes.dom().finite(),
    ensures
        in_order(entries, attributes),
        header_wire(attributes, size) == head(entries, size as nat),
        entries == sorted_entries(attributes),
{
    let entries = sorted_entries(attributes);
    lemma_sorted_exists(attributes);
    lemma_entries_map(entries);
    lemma_listing(entries);
    lemma_length_prefix(entries.len());
    lemma_big_endian(size as nat, 8);
    assert forall|i: int, j: int| 0 <= i < j < entries.len() implies comes_before(
        encode_utf8(#[trigger] entries[i].0),
        encode_utf8(#[trigger] entries[j].0),
    ) by {
        assert(key_lt(entries[i].0, entries[j].0));
        lemma_comes_before(encode_utf8(entries[i].0), encode_utf8(entries[j].0));
    }
    entries
}

/// A header lists the attributes of the map, each once and in the order of the
/// bytes of their keys.
pub proof fn law_a_header_lists_the_attributes(attributes: &Attributes, size: u64, header: Vec<u8>) -> (entries: Entries)
    requires
        attributes@.dom().finite(),
        call_ensures(encode_header, (attributes, size), header),
    ensures
        in_order(entries, attributes@),
        header@ == head(entries, size as nat),
{
    lemma_head(attributes@, size)
}

/// A header is appended to what is in the buffer.
pub proof fn law_a_header_is_appended(buf: &mut Vec<u8>, attributes: &Attributes, size: u64) -> (entries: Entries)
    requires
        attributes@.dom().finite(),
        call_ensures(encode_header_into, (buf, attributes, size), ()),
    ensures
        in_order(entries, attributes@),
        final(buf)@ == old(buf)@ + head(entries, size as nat),
{
    lemma_head(attributes@, size)
}

/// The last eight bytes of a header are the size in base 256: byte `i` of them
/// is the size divided by 256 to the power of `7 - i`, and of that the remainder
/// by 256. The first seven are `NiFiFF3`.
pub proof fn law_the_size_ends_a_header(f: &FlowFile<Vec<u8>>, header: Vec<u8>)
    requires
        f.attributes@.dom().finite(),
        call_ensures(FlowFile::<Vec<u8>>::header_bytes, (f,), header),
    ensures
        header@.len() >= 17,
        forall|i: int|
            0 <= i < 8 ==> (#[trigger] header@[header@.len() - 8 + i]) as int == (f.size as int / pow(256, (7 - i) as nat)) % 256,
        header@.take(7) == seq![78u8, 105u8, 70u8, 105u8, 70u8, 70u8, 51u8],
{
    let entries = lemma_head(f.attributes@, f.size);
    lemma_length_prefix(entries.len());
    let digits = big_endian(f.size as nat, 8);
    assert forall|i: int| 0 <= i < 8 implies (#[trigger] header@[header@.len() - 8 + i]) as int == (f.size as int / pow(
        256,
        (7 - i) as nat,
    )) % 256 by {
        assert(header@[header@.len() - 8 + i] == digits[i]);
    }
    assert(header@.take(7) =~= seq![78u8, 105u8, 70u8, 105u8, 70u8, 70u8, 51u8]);
}

/// A flow file is serialized as its header, which lists the attributes in the
/// order of the bytes of their keys, and its content.
pub proof fn law_a_flow_file_is_its_header_and_its_content(f: &FlowFile<Vec<u8>>, header: Vec<u8>, bytes: Vec<u8>) -> (entries: Entries)
    requires
        f.attributes@.dom().finite(),
        call_ensures(FlowFile::<Vec<u8>>::header_bytes, (f,), header),
        call_ensures(FlowFile::<Vec<u8>>::to_bytes, (f,), bytes),
    ensures
        in_order(entries, f.attributes@),
        header@ == head(entries, f.size as nat),
        bytes@ == head(entries, f.size as nat) + f.content@,
{
    lemma_head(f.attributes@, f.size)
}

/// The length that is said beforehand is that of the bytes written, as far as a
/// `u64` can say it.
pub proof fn law_the_length_is_said_beforehand(f: &FlowFile<Vec<u8>>, bytes: Vec<u8>, n: u64)
    requires
        f.size == f.content@.len(),
        call_ensures(FlowFile::<Vec<u8>>::to_bytes, (f,), bytes),
        call_ensures(FlowFile::<Vec<u8>>::serialized_len, (f,), n),
    ensures
        bytes@.len() <= u64::MAX ==> n == bytes@.len(),
        bytes@.len() > u64::MAX ==> n == u64::MAX,
{
}

/// How many bytes the listing of some attributes takes.
pub open spec fn listing_len(entries: Entries) -> nat
    decreases entries.len(),
{
    if entries.len() == 0 {
        0
    } else {
        length_prefix(size_of_text(entries[0].0)).len() + size_of_text(entries[0].0) + length_prefix(
            size_of_text(entries[0].1),
        ).len() + size_of_text(entries[0].1) + listing_len(entries.drop_first())
    }
}

proof fn lemma_listing_len(entries: Entries)
    ensures
        listing(entries).len() == listing_len(entries),
    decreases entries.len(),
{
    if entries.len() > 0 {
        lemma_listing_len(entries.drop_first());
    }
}

/// The length of a header: seven bytes, a field length for the number of
/// attributes and one for each key and value, their bytes, and eight more.
pub proof fn law_the_length_of_a_header(attributes: &Attributes, n: u64) -> (entries: Entries)
    requires
        attributes@.dom().finite(),
        call_ensures(header_len, (attributes,), n),
    ensures
        in_order(entries, attributes@),
        ({
            let exact = 15 + length_prefix(entries.len()).len() + listing_len(entries);
            n == if exact <= u64::MAX { exact } else { u64::MAX as nat }
        }),
{
    let entries = lemma_head(attributes@, 0);
    lemma_listing_len(entries);
    let length = header_wire(attributes@, 0).len();
    assert(n == crate::format::sayable(length));
    assert(length == 15 + length_prefix(entries.len()).len() + listing_len(entries));
    entries
}

/// The format expresses attributes exactly where their number and the bytes of
/// each key and value stay below 2 to the power of 32.
pub proof fn law_what_the_format_expresses(attributes: &Attributes, yes: bool)
    requires
        attributes@.dom().finite(),
        call_ensures(can_encode, (attributes,), yes),
    ensures
        yes <==> attributes@.len() < 0x1_0000_0000 && forall|k: Seq<char>| #[trigger]
            attributes@.dom().contains(k) ==> size_of_text(k) < 0x1_0000_0000 && size_of_text(attributes@[k]) < 0x1_0000_0000,
{
    if yes {
        assert forall|k: Seq<char>| #[trigger] attributes@.dom().contains(k) implies size_of_text(k) < 0x1_0000_0000
            && size_of_text(attributes@[k]) < 0x1_0000_0000 by {
            assert(crate::format::encodable_text(k));
        }
    } else if attributes@.len() < 0x1_0000_0000 && forall|k: Seq<char>| #[trigger]
        attributes@.dom().contains(k) ==> size_of_text(k) < 0x1_0000_0000 && size_of_text(attributes@[k]) < 0x1_0000_0000 {
        assert(crate::format::encodable(attributes@));
    }
}

} // verus!
