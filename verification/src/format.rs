//! Encoding primitives for the FlowFile V3 binary format.
//!
//! Layout, matching NiFi's `FlowFilePackagerV3`:
//!
//! 1. Magic header: the 7 ASCII bytes `NiFiFF3`.
//! 2. Attribute count as a *field length*.
//! 3. For each attribute: key, then value, each as a field length followed
//!    by that many UTF-8 bytes.
//! 4. Content size as an 8-byte big-endian integer.
//! 5. The content bytes.
//!
//! A *field length* is 2 bytes big-endian; values >= 0xFFFF are written as
//! the marker `0xFF 0xFF` followed by the value as 4 bytes big-endian.
//!
//! The extended form encodes a `u32`, but NiFi reads it into a Java `int`, so
//! a length at or above `i32::MAX` comes back negative there and fails on the
//! array allocation. The interoperable ceiling is half the encodable one.

use vstd::prelude::*;
use vstd::utf8::*;

use crate::attributes::Attributes;
use crate::attributes::{entries_map, lemma_entries_map, sorted, sorted_entries, AttributeMap, Entries};

verus! {

/// The smallest value that takes the extended form of a field length.
pub const MAX_VALUE_2_BYTES: usize = 0xFFFF;

/// The magic header, `NiFiFF3`.
pub const MAGIC: [u8; 7] = [78, 105, 70, 105, 70, 70, 51];

/// `NiFiFF3` as bytes.
pub open spec fn magic() -> Seq<u8> {
    seq![78u8, 105u8, 70u8, 105u8, 70u8, 70u8, 51u8]
}

/// The last `n` base-256 digits of `value`, most significant first.
pub open spec fn be_bytes(value: nat, n: nat) -> Seq<u8>
    decreases n,
{
    if n == 0 {
        Seq::empty()
    } else {
        be_bytes(value / 256, (n - 1) as nat).push((value % 256) as u8)
    }
}

/// The number that base-256 digits stand for, most significant first.
pub open spec fn be_value(bytes: Seq<u8>) -> nat
    decreases bytes.len(),
{
    if bytes.len() == 0 {
        0
    } else {
        be_value(bytes.drop_last()) * 256 + bytes.last() as nat
    }
}

/// 256 to the power of `n`.
pub open spec fn pow256(n: nat) -> nat
    decreases n,
{
    if n == 0 {
        1
    } else {
        256 * pow256((n - 1) as nat)
    }
}

/// A field length on the wire.
pub open spec fn field_len_wire(len: nat) -> Seq<u8> {
    if len < 0xFFFF {
        be_bytes(len, 2)
    } else {
        seq![0xFFu8, 0xFFu8] + be_bytes(len, 4)
    }
}

/// A key or a value on the wire: its length in bytes, then its bytes.
pub open spec fn text_wire(text: Seq<char>) -> Seq<u8> {
    field_len_wire(encode_utf8(text).len()) + encode_utf8(text)
}

/// Attributes on the wire, each as its key and then its value.
pub open spec fn entries_wire(entries: Entries) -> Seq<u8>
    decreases entries.len(),
{
    if entries.len() == 0 {
        Seq::empty()
    } else {
        entries_wire(entries.drop_last()) + text_wire(entries.last().0) + text_wire(entries.last().1)
    }
}

/// The header of a flow file: everything before the content bytes. The
/// attributes stand in the order of their keys, so that the same attributes
/// always give the same bytes.
pub open spec fn header_wire(attributes: AttributeMap, size: u64) -> Seq<u8> {
    magic() + field_len_wire(attributes.len()) + entries_wire(sorted_entries(attributes)) + be_bytes(size as nat, 8)
}

/// A field length can hold at most 4 bytes, and so no more than this.
pub open spec fn encodable_text(text: Seq<char>) -> bool {
    encode_utf8(text).len() <= u32::MAX
}

/// Every key and every value fits a field length.
pub open spec fn encodable_entries(entries: Entries) -> bool {
    forall|i: int| 0 <= i < entries.len() ==> encodable_text(#[trigger] entries[i].0) && encodable_text(entries[i].1)
}

/// The format can express these attributes: a finite number of them, each key
/// and value, and their number, within a field length.
pub open spec fn encodable(attributes: AttributeMap) -> bool {
    &&& attributes.dom().finite()
    &&& attributes.len() <= u32::MAX
    &&& forall|k: Seq<char>| #[trigger] attributes.dom().contains(k) ==> encodable_text(k) && encodable_text(attributes[k])
}

pub proof fn lemma_be_bytes(value: nat, n: nat)
    ensures
        be_bytes(value, n).len() == n,
        value < pow256(n) ==> be_value(be_bytes(value, n)) == value,
    decreases n,
{
    if n > 0 {
        lemma_be_bytes(value / 256, (n - 1) as nat);
        let bytes = be_bytes(value, n);
        assert(bytes.drop_last() =~= be_bytes(value / 256, (n - 1) as nat));
        if value < pow256(n) {
            assert(value / 256 < pow256((n - 1) as nat));
        }
    }
}

pub proof fn lemma_be_value(bytes: Seq<u8>)
    ensures
        be_value(bytes) < pow256(bytes.len()),
        be_bytes(be_value(bytes), bytes.len()) == bytes,
    decreases bytes.len(),
{
    if bytes.len() > 0 {
        let less = bytes.drop_last();
        lemma_be_value(less);
        let value = be_value(bytes);
        assert(value / 256 == be_value(less) && value % 256 == bytes.last() as nat);
        assert(bytes =~= less.push(bytes.last()));
    } else {
        assert(be_bytes(be_value(bytes), 0) =~= bytes);
    }
}

pub proof fn lemma_pow256()
    ensures
        pow256(0) == 1,
        pow256(1) == 0x100,
        pow256(2) == 0x1_0000,
        pow256(3) == 0x100_0000,
        pow256(4) == 0x1_0000_0000,
        pow256(8) == 0x1_0000_0000_0000_0000,
{
    reveal_with_fuel(pow256, 9);
}

/// The attributes of a header can be written if and only if each of them can.
pub proof fn lemma_encodable(attributes: AttributeMap, entries: Entries)
    requires
        sorted(entries),
        entries_map(entries) == attributes,
    ensures
        encodable(attributes) <==> entries.len() <= u32::MAX && encodable_entries(entries),
{
    lemma_entries_map(entries);
    if encodable(attributes) {
        assert forall|i: int| 0 <= i < entries.len() implies encodable_text(#[trigger] entries[i].0)
            && encodable_text(entries[i].1) by {
            assert(attributes.dom().contains(entries[i].0));
        }
    }
    if entries.len() <= u32::MAX && encodable_entries(entries) {
        assert forall|k: Seq<char>| #[trigger] attributes.dom().contains(k) implies encodable_text(k)
            && encodable_text(attributes[k]) by {
            let i = choose|i: int| 0 <= i < entries.len() && #[trigger] entries[i].0 == k;
            assert(attributes[entries[i].0] == entries[i].1);
        }
    }
}

/// Append the last `n` base-256 digits of `value`.
pub fn write_be(buf: &mut Vec<u8>, value: u64, n: usize)
    ensures
        final(buf)@ == old(buf)@ + be_bytes(value as nat, n as nat),
    decreases n,
{
    if n > 0 {
        write_be(buf, value / 256, n - 1);
        buf.push((value % 256) as u8);
        assert(buf@ =~= old(buf)@ + be_bytes(value as nat, n as nat));
    } else {
        assert(buf@ =~= old(buf)@ + be_bytes(value as nat, 0));
    }
}

/// The number that up to eight base-256 digits stand for.
pub fn read_be(bytes: &[u8]) -> (value: u64)
    requires
        bytes@.len() <= 8,
    ensures
        value == be_value(bytes@),
{
    let mut value: u64 = 0;
    let mut i: usize = 0;
    proof {
        lemma_pow256();
    }
    while i < bytes.len()
        invariant
            i <= bytes@.len() <= 8,
            value == be_value(bytes@.take(i as int)),
            pow256(8) == 0x1_0000_0000_0000_0000,
        decreases bytes@.len() - i,
    {
        proof {
            let next = bytes@.take(i + 1);
            assert(next.drop_last() =~= bytes@.take(i as int));
            lemma_be_value(next);
            lemma_pow256_monotonic(i as nat + 1, 8);
        }
        value = value * 256 + bytes[i] as u64;
        i = i + 1;
    }
    assert(bytes@.take(i as int) =~= bytes@);
    value
}

proof fn lemma_pow256_monotonic(a: nat, b: nat)
    requires
        a <= b,
    ensures
        pow256(a) <= pow256(b),
    decreases b,
{
    if a < b {
        lemma_pow256_monotonic(a, (b - 1) as nat);
    }
}

/// Append bytes.
pub fn write_bytes(buf: &mut Vec<u8>, bytes: &[u8])
    ensures
        final(buf)@ == old(buf)@ + bytes@,
{
    buf.extend_from_slice(bytes);
    assert(buf@ =~= old(buf)@ + bytes@);
}

/// Append `len` as a field length.
pub fn write_field_len(buf: &mut Vec<u8>, len: usize)
    requires
        len <= u32::MAX,
    ensures
        final(buf)@ == old(buf)@ + field_len_wire(len as nat),
{
    if len < MAX_VALUE_2_BYTES {
        write_be(buf, len as u64, 2);
    } else {
        buf.push(0xFF);
        buf.push(0xFF);
        write_be(buf, len as u64, 4);
        assert(buf@ =~= old(buf)@ + field_len_wire(len as nat));
    }
}

/// Append a key or a value.
pub fn write_string(buf: &mut Vec<u8>, value: &str)
    requires
        encodable_text(value@),
    ensures
        final(buf)@ == old(buf)@ + text_wire(value@),
{
    let bytes = value.as_bytes();
    write_field_len(buf, bytes.len());
    write_bytes(buf, bytes);
    assert(buf@ =~= old(buf)@ + text_wire(value@));
}

/// How many bytes [`write_field_len`] writes for `len`: two, or six in the
/// extended form.
pub fn field_len_bytes(len: usize) -> (n: usize)
    ensures
        n == field_len_wire(len as nat).len(),
{
    proof {
        lemma_be_bytes(len as nat, 2);
        lemma_be_bytes(len as nat, 4);
    }
    if len < MAX_VALUE_2_BYTES {
        2
    } else {
        6
    }
}

/// A length as far as a `u64` can say it.
pub open spec fn sayable(n: nat) -> u64 {
    if n <= u64::MAX {
        n as u64
    } else {
        u64::MAX
    }
}

/// The exact number of bytes [`encode_header`] will produce, or the largest
/// number there is if a `u64` cannot say it.
///
/// Cheap, a pass over the attributes doing arithmetic, and what
/// [`FlowFile::serialized_len`](crate::FlowFile::serialized_len) answers.
pub fn header_len(attributes: &Attributes) -> (n: u64)
    ensures
        forall|size: u64| n == sayable((#[trigger] header_wire(attributes@, size)).len()),
        n == sayable(header_wire(attributes@, 0).len()),
{
    let count: usize = attributes.len();
    let ghost entries = attributes.entries();
    let ghost fixed = magic().len() + field_len_wire(count as nat).len() + 8;
    proof {
        assert forall|size: u64| (#[trigger] header_wire(attributes@, size)).len() == fixed + entries_wire(entries).len() by {
            lemma_be_bytes(size as nat, 8);
        }
        lemma_be_bytes(count as nat, 2);
        lemma_be_bytes(count as nat, 4);
        assert(entries.take(0) =~= Seq::empty());
    }
    let mut n: u64 = 7 + field_len_bytes(count) as u64 + 8;
    let mut i: usize = 0;
    while i < count
        invariant
            i <= count,
            count == entries.len(),
            entries == attributes.entries(),
            n == sayable(fixed + entries_wire(entries.take(i as int)).len()),
        decreases count - i,
    {
        let key: usize = attributes.key_at(i).as_bytes().len();
        let value: usize = attributes.value_at(i).as_bytes().len();
        proof {
            let next = entries.take(i + 1);
            assert(next.drop_last() =~= entries.take(i as int));
        }
        n = n.saturating_add(field_len_bytes(key) as u64).saturating_add(key as u64).saturating_add(
            field_len_bytes(value) as u64,
        ).saturating_add(value as u64);
        i = i + 1;
    }
    assert(entries.take(i as int) =~= entries);
    n
}

/// Serialize the header (everything before the content bytes).
///
/// Attributes are written in sorted key order so the output is
/// deterministic; NiFi itself does not require any particular order.
pub fn encode_header(attributes: &Attributes, size: u64) -> (header: Vec<u8>)
    requires
        encodable(attributes@),
    ensures
        header@ == header_wire(attributes@, size),
{
    let mut buf: Vec<u8> = Vec::new();
    encode_header_into(&mut buf, attributes, size);
    assert(buf@ =~= header_wire(attributes@, size));
    buf
}

/// [`encode_header`], appending to a buffer the caller already has.
///
/// For serializing a whole flow file into one allocation: the header and the
/// content go into the same buffer rather than the header into its own and
/// then a copy.
pub fn encode_header_into(buf: &mut Vec<u8>, attributes: &Attributes, size: u64)
    requires
        encodable(attributes@),
    ensures
        final(buf)@ == old(buf)@ + header_wire(attributes@, size),
{
    let ghost start = buf@;
    let n: usize = attributes.len();
    let ghost entries = attributes.entries();
    proof {
        lemma_encodable(attributes@, entries);
    }
    write_bytes(buf, &MAGIC);
    assert(MAGIC@ =~= magic());
    write_field_len(buf, n);
    let ghost head = start + magic() + field_len_wire(attributes@.len());
    assert(buf@ =~= head);
    let mut i: usize = 0;
    assert(entries.take(0) =~= Seq::empty());
    assert(buf@ =~= head + entries_wire(entries.take(0)));
    while i < n
        invariant
            i <= n,
            n == entries.len(),
            entries == attributes.entries(),
            encodable_entries(entries),
            buf@ == head + entries_wire(entries.take(i as int)),
        decreases n - i,
    {
        write_string(buf, attributes.key_at(i));
        write_string(buf, attributes.value_at(i));
        proof {
            let next = entries.take(i + 1);
            assert(next.drop_last() =~= entries.take(i as int));
            assert(buf@ =~= head + entries_wire(next));
        }
        i = i + 1;
    }
    assert(entries.take(i as int) =~= entries);
    write_be(buf, size, 8);
    assert(buf@ =~= start + header_wire(attributes@, size));
}

/// Whether the format can express these attributes.
pub fn can_encode(attributes: &Attributes) -> (yes: bool)
    ensures
        yes == encodable(attributes@),
{
    let n: usize = attributes.len();
    let ghost entries = attributes.entries();
    proof {
        lemma_entries_map(entries);
    }
    if n as u64 > u32::MAX as u64 {
        return false;
    }
    let mut i: usize = 0;
    while i < n
        invariant
            i <= n,
            n == entries.len(),
            entries == attributes.entries(),
            sorted(entries),
            attributes@ == entries_map(entries),
            forall|j: int|
                0 <= j < entries.len() ==> attributes@.dom().contains(#[trigger] entries[j].0)
                    && attributes@[entries[j].0] == entries[j].1,
            forall|j: int|
                0 <= j < i ==> encodable_text(#[trigger] entries[j].0) && encodable_text(entries[j].1),
        decreases n - i,
    {
        assert(attributes@.dom().contains(entries[i as int].0));
        let key: usize = attributes.key_at(i).as_bytes().len();
        let value: usize = attributes.value_at(i).as_bytes().len();
        if key as u64 > u32::MAX as u64 || value as u64 > u32::MAX as u64 {
            return false;
        }
        assert forall|j: int| 0 <= j < i + 1 implies encodable_text(#[trigger] entries[j].0) && encodable_text(
            entries[j].1,
        ) by {
            assert(j < i || j == i);
        }
        i = i + 1;
    }
    true
}

} // verus!
