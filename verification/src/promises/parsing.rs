//! What is read out of bytes, and which bytes are refused.

use vstd::prelude::*;
use vstd::utf8::*;

use crate::attributes::{insert_all, AttributeMap, Entries};
use crate::decode::{content_size, decode_header, field_len, objection, pairs, text, Outcome, Refusal, TextOutcome};
use crate::error::{Detail, Error, ErrorKind, Result};
use crate::flow_file::FlowFile;
use crate::format::{be_value, lemma_be_bytes, lemma_be_value, lemma_pow256};
use crate::laws::lemma_front_map;
use crate::limits::{capped, no_limits, Limits};
use super::layout::{head, last_wins, lemma_last_wins, listing, size_of_text};
use super::numbers::{big_endian, lemma_big_endian, length_prefix, prefixed};

verus! {

/// `bytes` are a field length of `n` and then `rest`: the short form below
/// 65535, or the long form with any number.
#[verifier::opaque]
pub open spec fn counts(bytes: Seq<u8>, n: nat, rest: Seq<u8>) -> bool {
    ||| n < 65535 && bytes == big_endian(n, 2) + rest
    ||| n <= u32::MAX && bytes == seq![255u8, 255u8] + big_endian(n, 4) + rest
}

/// `bytes` are a text after its length, and then `rest`.
pub open spec fn says(bytes: Seq<u8>, chars: Seq<char>, rest: Seq<u8>) -> bool {
    counts(bytes, size_of_text(chars), encode_utf8(chars) + rest)
}

/// `bytes` are these keys and values, and then `rest`.
pub open spec fn lists(bytes: Seq<u8>, entries: Entries, rest: Seq<u8>) -> bool
    decreases entries.len(),
{
    if entries.len() == 0 {
        bytes == rest
    } else {
        exists|after_key: Seq<u8>, after_value: Seq<u8>| #[trigger]
            says(bytes, entries[0].0, after_key) && #[trigger] says(after_key, entries[0].1, after_value) && lists(
                after_value,
                entries.drop_first(),
                rest,
            )
    }
}

/// `bytes` are a header with these attributes and this size, and then `rest`.
pub open spec fn spells(bytes: Seq<u8>, entries: Entries, size: u64, rest: Seq<u8>) -> bool {
    &&& bytes.len() >= 7
    &&& bytes.take(7) == seq![78u8, 105u8, 70u8, 105u8, 70u8, 70u8, 51u8]
    &&& exists|after_count: Seq<u8>| #[trigger]
        counts(bytes.skip(7), entries.len(), after_count) && lists(after_count, entries, big_endian(size as nat, 8) + rest)
}

/// How many bytes some keys and values take together.
pub open spec fn bulk(entries: Entries) -> nat
    decreases entries.len(),
{
    if entries.len() == 0 {
        0
    } else {
        size_of_text(entries[0].0) + size_of_text(entries[0].1) + bulk(entries.drop_first())
    }
}

/// Each key and each value is at most as long as one may be.
pub open spec fn none_too_long(entries: Entries, limit: Option<usize>) -> bool {
    limit matches Some(most) ==> forall|i: int|
        0 <= i < entries.len() ==> size_of_text(#[trigger] entries[i].0) <= most && size_of_text(entries[i].1) <= most
}

/// So many bytes of keys and values are at most as many as there may be. A
/// limit of the largest number there is lets everything through.
pub open spec fn bulk_allowed(n: nat, limit: Option<usize>) -> bool {
    limit matches Some(most) ==> n <= most || most == usize::MAX
}

/// Nothing about these attributes is above the limits.
pub open spec fn attributes_allowed(entries: Entries, limits: Limits) -> bool {
    &&& limits.max_attributes matches Some(most) ==> entries.len() <= most
    &&& none_too_long(entries, limits.max_attribute_len)
    &&& bulk_allowed(bulk(entries), limits.max_total_attribute_len)
}

/// The size is at most what there may be of content.
pub open spec fn size_allowed(size: u64, limits: Limits) -> bool {
    limits.max_content_len matches Some(most) ==> size <= most
}

proof fn lemma_digits(n: nat, len: nat)
    requires
        len == 2 && n < 0x1_0000 || len == 4 && n <= u32::MAX || len == 8 && n <= u64::MAX,
    ensures
        be_value(big_endian(n, len)) == n,
        big_endian(n, len).len() == len,
{
    lemma_pow256();
    lemma_big_endian(n, len);
    lemma_be_bytes(n, len);
}

proof fn lemma_marker()
    ensures
        be_value(seq![255u8, 255u8]) == 0xFFFF,
{
    let marker = seq![255u8, 255u8];
    assert(marker.drop_last() =~= seq![255u8]);
    assert(seq![255u8].drop_last() =~= Seq::<u8>::empty());
    reveal_with_fuel(be_value, 3);
}

pub proof fn lemma_counts(bytes: Seq<u8>, n: nat, rest: Seq<u8>)
    requires
        counts(bytes, n, rest),
    ensures
        field_len(bytes) == Some((n, rest)),
{
    reveal(counts);
    if n < 65535 && bytes == big_endian(n, 2) + rest {
        lemma_digits(n, 2);
        assert(bytes.take(2) =~= big_endian(n, 2));
        assert(bytes.skip(2) =~= rest);
    } else {
        lemma_digits(n, 4);
        lemma_marker();
        assert(bytes.take(2) =~= seq![255u8, 255u8]);
        assert(bytes.subrange(2, 6) =~= big_endian(n, 4));
        assert(bytes.skip(6) =~= rest);
    }
}

proof fn lemma_counted(bytes: Seq<u8>)
    ensures
        match field_len(bytes) {
            Some((n, rest)) => n <= u32::MAX && counts(bytes, n, rest),
            None => bytes.len() < 6,
        },
{
    reveal(counts);
    lemma_pow256();
    if bytes.len() >= 2 {
        lemma_be_value(bytes.take(2));
        let n = be_value(bytes.take(2));
        if n < 0xFFFF {
            lemma_big_endian(n, 2);
            assert(bytes =~= big_endian(n, 2) + bytes.skip(2));
        } else if bytes.len() >= 6 {
            let m = be_value(bytes.subrange(2, 6));
            lemma_be_value(bytes.subrange(2, 6));
            lemma_big_endian(m, 4);
            lemma_marker();
            lemma_be_value(seq![255u8, 255u8]);
            assert(bytes.take(2) == seq![255u8, 255u8]);
            assert(bytes =~= bytes.take(2) + bytes.subrange(2, 6) + bytes.skip(6));
        }
    }
}

proof fn lemma_says(bytes: Seq<u8>, chars: Seq<char>, rest: Seq<u8>, total: nat, limits: Limits)
    requires
        says(bytes, chars, rest),
    ensures
        match objection(size_of_text(chars), total, limits) {
            Some(why) => text(bytes, total, limits) matches TextOutcome::Stop { why: w, .. } && w == why,
            None => text(bytes, total, limits) == (TextOutcome::Text { chars, len: size_of_text(chars), rest }),
        },
{
    let n = size_of_text(chars);
    lemma_counts(bytes, n, encode_utf8(chars) + rest);
    assert((encode_utf8(chars) + rest).take(n as int) =~= encode_utf8(chars));
    assert((encode_utf8(chars) + rest).skip(n as int) =~= rest);
    encode_utf8_valid_utf8(chars);
    encode_utf8_decode_utf8(chars);
}

proof fn lemma_said(bytes: Seq<u8>, total: nat, limits: Limits)
    ensures
        text(bytes, total, limits) matches TextOutcome::Text { chars, len, rest } ==> says(bytes, chars, rest) && len
            == size_of_text(chars) && objection(len, total, limits) is None,
{
    lemma_counted(bytes);
    if let Some((n, after)) = field_len(bytes) {
        if after.len() >= n && valid_utf8(after.take(n as int)) {
            decode_utf8_encode_utf8(after.take(n as int));
            assert(after =~= after.take(n as int) + after.skip(n as int));
        }
    }
}

/// What the first entries leave of a longer list.
#[verifier::spinoff_prover]
#[verifier::rlimit(30)]
proof fn lemma_advance(
    bytes: Seq<u8>,
    entries: Entries,
    rest: Seq<u8>,
    left: nat,
    total: nat,
    before: AttributeMap,
    limits: Limits,
)
    requires
        lists(bytes, entries, rest),
        none_too_long(entries, limits.max_attribute_len),
        bulk_allowed(total + bulk(entries), limits.max_total_attribute_len),
    ensures
        pairs(bytes, left + entries.len(), capped(total), before, limits) == pairs(
            rest,
            left,
            capped(total + bulk(entries)),
            insert_all(before, entries),
            limits,
        ),
    decreases entries.len(),
{
    if entries.len() > 0 {
        let key = entries[0].0;
        let value = entries[0].1;
        let others = entries.drop_first();
        let (after_key, after_value) = choose|after_key: Seq<u8>, after_value: Seq<u8>| #[trigger]
            says(bytes, entries[0].0, after_key) && #[trigger] says(after_key, entries[0].1, after_value) && lists(
                after_value,
                entries.drop_first(),
                rest,
            );
        let total1 = total + size_of_text(key);
        let total2 = total1 + size_of_text(value);
        assert(size_of_text(entries[0].0) == size_of_text(key));
        assert(objection(size_of_text(key), capped(total), limits) is None);
        lemma_says(bytes, key, after_key, capped(total), limits);
        assert(capped(capped(total) + size_of_text(key)) == capped(total1));
        assert(objection(size_of_text(value), capped(total1), limits) is None);
        lemma_says(after_key, value, after_value, capped(total1), limits);
        assert(capped(capped(total1) + size_of_text(value)) == capped(total2));
        assert(none_too_long(others, limits.max_attribute_len)) by {
            if let Some(most) = limits.max_attribute_len {
                assert forall|i: int| 0 <= i < others.len() implies size_of_text(#[trigger] others[i].0) <= most && size_of_text(
                    others[i].1,
                ) <= most by {
                    assert(others[i] == entries[i + 1]);
                }
            }
        }
        lemma_front_map(entries, before);
        lemma_advance(after_value, others, rest, left, total2, before.insert(key, value), limits);
        assert((left + entries.len() - 1) as nat == left + others.len());
    }
}

/// Where something in the list is above the limits the list is refused, and
/// the refusal says what.
#[verifier::spinoff_prover]
#[verifier::rlimit(30)]
proof fn lemma_refused(
    bytes: Seq<u8>,
    entries: Entries,
    rest: Seq<u8>,
    left: nat,
    total: nat,
    before: AttributeMap,
    limits: Limits,
)
    requires
        lists(bytes, entries, rest),
        !(none_too_long(entries, limits.max_attribute_len) && bulk_allowed(
            total + bulk(entries),
            limits.max_total_attribute_len,
        )),
        bulk_allowed(total, limits.max_total_attribute_len),
    ensures
        pairs(bytes, left + entries.len(), capped(total), before, limits) matches Outcome::Refused { why, .. } && too_much(
            why,
            entries,
            total,
            limits,
        ),
    decreases entries.len(),
{
    if entries.len() > 0 {
        let key = entries[0].0;
        let value = entries[0].1;
        let others = entries.drop_first();
        let (after_key, after_value) = choose|after_key: Seq<u8>, after_value: Seq<u8>| #[trigger]
            says(bytes, entries[0].0, after_key) && #[trigger] says(after_key, entries[0].1, after_value) && lists(
                after_value,
                entries.drop_first(),
                rest,
            );
        let total1 = total + size_of_text(key);
        let total2 = total1 + size_of_text(value);
        lemma_says(bytes, key, after_key, capped(total), limits);
        if objection(size_of_text(key), capped(total), limits) is None {
            assert(capped(capped(total) + size_of_text(key)) == capped(total1));
            lemma_says(after_key, value, after_value, capped(total1), limits);
            if objection(size_of_text(value), capped(total1), limits) is None {
                assert(capped(capped(total1) + size_of_text(value)) == capped(total2));
                if none_too_long(others, limits.max_attribute_len) {
                    assert(none_too_long(entries, limits.max_attribute_len)) by {
                        if let Some(most) = limits.max_attribute_len {
                            assert forall|i: int| 0 <= i < entries.len() implies size_of_text(#[trigger] entries[i].0) <= most
                                && size_of_text(entries[i].1) <= most by {
                                if i > 0 {
                                    assert(others[i - 1] == entries[i]);
                                }
                            }
                        }
                    }
                }
                lemma_refused(after_value, others, rest, left, total2, before.insert(key, value), limits);
                assert((left + entries.len() - 1) as nat == left + others.len());
                let outcome = pairs(bytes, left + entries.len(), capped(total), before, limits);
                assert(outcome == pairs(after_value, left + others.len(), capped(total2), before.insert(key, value), limits));
                let why = outcome->why;
                let j = choose|j: int| #[trigger] first_wrong(why, others, total2, limits, j);
                lemma_first_wrong_shifts(why, entries, total, limits, j);
            } else {
                let why = objection(size_of_text(value), capped(total1), limits)->0;
                assert(first_wrong(why, entries, total, limits, 1)) by {
                    lemma_fields_shift(entries, 0);
                    assert forall|k: int| 0 <= k < 1 implies field_allowed(#[trigger] field(entries, k), limits.max_attribute_len)
                        && bulk_allowed(total + sum_before(entries, k + 1), limits.max_total_attribute_len) by {
                        assert(k == 0);
                    }
                }
            }
        } else {
            let why = objection(size_of_text(key), capped(total), limits)->0;
            assert(first_wrong(why, entries, total, limits, 0)) by {
                lemma_fields_shift(entries, 0);
            }
        }
    }
}

proof fn lemma_first_wrong_shifts(why: Refusal, entries: Entries, total: nat, limits: Limits, j: int)
    requires
        entries.len() > 0,
        ({
            let total1 = total + size_of_text(entries[0].0);
            let total2 = total1 + size_of_text(entries[0].1);
            &&& first_wrong(why, entries.drop_first(), total2, limits, j)
            &&& field_allowed(size_of_text(entries[0].0), limits.max_attribute_len)
            &&& field_allowed(size_of_text(entries[0].1), limits.max_attribute_len)
            &&& bulk_allowed(total1, limits.max_total_attribute_len)
            &&& bulk_allowed(total2, limits.max_total_attribute_len)
        }),
    ensures
        first_wrong(why, entries, total, limits, j + 2),
{
    let others = entries.drop_first();
    let total2 = total + size_of_text(entries[0].0) + size_of_text(entries[0].1);
    lemma_fields_shift(entries, 0);
    lemma_fields_shift(entries, j);
    lemma_fields_shift(entries, j + 1);
    assert forall|k: int| 0 <= k < j + 2 implies field_allowed(#[trigger] field(entries, k), limits.max_attribute_len)
        && bulk_allowed(total + sum_before(entries, k + 1), limits.max_total_attribute_len) by {
        if k >= 2 {
            lemma_fields_shift(entries, k - 2);
            lemma_fields_shift(entries, k - 1);
            assert(field_allowed(field(others, k - 2), limits.max_attribute_len));
        } else {
            assert(k == 0 || k == 1);
        }
    }
}

/// How many bytes the key or the value at place `j` takes, counting the first
/// key, its value, the second key and so on.
pub open spec fn field(entries: Entries, j: int) -> nat {
    if j % 2 == 0 {
        size_of_text(entries[j / 2].0)
    } else {
        size_of_text(entries[j / 2].1)
    }
}

/// How many bytes the keys and values before place `j` take together.
pub open spec fn sum_before(entries: Entries, j: int) -> nat
    decreases j,
{
    if j <= 0 {
        0
    } else {
        sum_before(entries, j - 1) + field(entries, j - 1)
    }
}

/// So many bytes are at most as many as one key or value may take.
pub open spec fn field_allowed(n: nat, limit: Option<usize>) -> bool {
    limit matches Some(most) ==> n <= most
}

/// What is at place `j` is the first that is wrong: it is too long, or it makes
/// all that came before it and itself too long. The refusal says how long.
pub open spec fn first_wrong(why: Refusal, entries: Entries, total: nat, limits: Limits, j: int) -> bool {
    &&& 0 <= j < 2 * entries.len()
    &&& forall|k: int|
        0 <= k < j ==> field_allowed(#[trigger] field(entries, k), limits.max_attribute_len) && bulk_allowed(
            total + sum_before(entries, k + 1),
            limits.max_total_attribute_len,
        )
    &&& match why {
        Refusal::Length { len, limit } => {
            &&& limits.max_attribute_len == Some(limit)
            &&& len == field(entries, j)
            &&& len > limit
        },
        Refusal::Total { len, limit } => {
            &&& field_allowed(field(entries, j), limits.max_attribute_len)
            &&& limits.max_total_attribute_len == Some(limit)
            &&& len == if total + sum_before(entries, j + 1) <= usize::MAX {
                total + sum_before(entries, j + 1)
            } else {
                usize::MAX as nat
            }
            &&& len > limit
        },
        _ => false,
    }
}

/// A refusal of keys and values that are too long, for the first that is, or for
/// the first that makes them too long together.
pub open spec fn too_much(why: Refusal, entries: Entries, total: nat, limits: Limits) -> bool {
    exists|j: int| #[trigger] first_wrong(why, entries, total, limits, j)
}

pub proof fn lemma_fields_shift(entries: Entries, j: int)
    requires
        entries.len() > 0,
        0 <= j <= 2 * (entries.len() - 1),
    ensures
        j < 2 * (entries.len() - 1) ==> field(entries, j + 2) == field(entries.drop_first(), j),
        sum_before(entries, j + 2) == size_of_text(entries[0].0) + size_of_text(entries[0].1) + sum_before(entries.drop_first(), j),
        field(entries, 0) == size_of_text(entries[0].0),
        field(entries, 1) == size_of_text(entries[0].1),
        sum_before(entries, 1) == size_of_text(entries[0].0),
        sum_before(entries, 2) == size_of_text(entries[0].0) + size_of_text(entries[0].1),
    decreases j,
{
    reveal_with_fuel(sum_before, 3);
    assert((j + 2) / 2 == j / 2 + 1 && (j + 2) % 2 == j % 2);
    assert(0int / 2 == 0 && 0int % 2 == 0 && 1int / 2 == 0 && 1int % 2 == 1);
    if j < 2 * (entries.len() - 1) {
        assert(j / 2 < entries.len() - 1);
        assert(entries.drop_first()[j / 2] == entries[j / 2 + 1]);
    }
    if j > 0 {
        lemma_fields_shift(entries, j - 1);
    }
}

/// What was accepted was listed.
#[verifier::spinoff_prover]
#[verifier::rlimit(30)]
proof fn lemma_accepted(bytes: Seq<u8>, left: nat, total: nat, before: AttributeMap, limits: Limits) -> (entries: Entries)
    requires
        pairs(bytes, left, capped(total), before, limits) is Accepted,
        bulk_allowed(total, limits.max_total_attribute_len),
    ensures
        entries.len() == left,
        pairs(bytes, left, capped(total), before, limits) matches Outcome::Accepted { attributes, size, rest } && attributes
            == insert_all(before, entries) && lists(bytes, entries, big_endian(size as nat, 8) + rest) && size_allowed(size, limits),
        none_too_long(entries, limits.max_attribute_len),
        bulk_allowed(total + bulk(entries), limits.max_total_attribute_len),
    decreases left,
{
    if left == 0 {
        lemma_pow256();
        lemma_be_value(bytes.take(8));
        lemma_big_endian(be_value(bytes.take(8)), 8);
        assert(bytes =~= bytes.take(8) + bytes.skip(8));
        Seq::empty()
    } else {
        lemma_said(bytes, capped(total), limits);
        let key = text(bytes, capped(total), limits);
        let total1 = total + key->len;
        assert(capped(capped(total) + key->len) == capped(total1));
        lemma_said(key->Text_rest, capped(total1), limits);
        let value = text(key->Text_rest, capped(total1), limits);
        let total2 = total1 + value->len;
        assert(capped(capped(total1) + value->len) == capped(total2));
        let pair = (key->chars, value->chars);
        let others = lemma_accepted(
            value->Text_rest,
            (left - 1) as nat,
            total2,
            before.insert(key->chars, value->chars),
            limits,
        );
        let entries = seq![pair] + others;
        assert(entries.drop_first() =~= others);
        assert(entries[0] == pair);
        lemma_front_map(entries, before);
        assert(none_too_long(entries, limits.max_attribute_len)) by {
            if let Some(most) = limits.max_attribute_len {
                assert forall|i: int| 0 <= i < entries.len() implies size_of_text(#[trigger] entries[i].0) <= most && size_of_text(
                    entries[i].1,
                ) <= most by {
                    if i > 0 {
                        assert(others[i - 1] == entries[i]);
                    }
                }
            }
        }
        assert(says(bytes, entries[0].0, key->Text_rest) && says(key->Text_rest, entries[0].1, value->Text_rest));
        entries
    }
}

pub proof fn lemma_size(size: u64, rest: Seq<u8>)
    ensures
        ({
            let tail = big_endian(size as nat, 8) + rest;
            &&& tail.len() >= 8
            &&& tail.skip(8) == rest
            &&& be_value(tail.take(8)) == size
        }),
{
    lemma_digits(size as nat, 8);
    let tail = big_endian(size as nat, 8) + rest;
    assert(tail.take(8) =~= big_endian(size as nat, 8));
    assert(tail.skip(8) =~= rest);
}

/// What becomes of a header: it is accepted if nothing in it is above the
/// limits, and otherwise refused for what is.
pub proof fn lemma_spelled(bytes: Seq<u8>, entries: Entries, size: u64, rest: Seq<u8>, limits: Limits)
    requires
        spells(bytes, entries, size, rest),
    ensures
        attributes_allowed(entries, limits) && size_allowed(size, limits) ==> decode_header(bytes, limits) == (Outcome::Accepted {
            attributes: insert_all(Map::empty(), entries),
            size,
            rest,
        }),
        attributes_allowed(entries, limits) && !size_allowed(size, limits) ==> decode_header(bytes, limits) == (Outcome::Refused {
            why: Refusal::Content { size, limit: limits.max_content_len->0 },
            rest,
        }),
        !attributes_allowed(entries, limits) ==> {
            &&& decode_header(bytes, limits) matches Outcome::Refused { why, .. }
            &&& if limits.max_attributes matches Some(most) && entries.len() > most {
                why == (Refusal::Count { count: entries.len(), limit: limits.max_attributes->0 })
            } else {
                too_much(why, entries, 0, limits)
            }
        },
{
    let after_count = choose|after_count: Seq<u8>| #[trigger]
        counts(bytes.skip(7), entries.len(), after_count) && lists(after_count, entries, big_endian(size as nat, 8) + rest);
    let tail = big_endian(size as nat, 8) + rest;
    lemma_counts(bytes.skip(7), entries.len(), after_count);
    lemma_size(size, rest);
    assert(capped(0) == 0);
    if !(limits.max_attributes matches Some(most) && entries.len() > most) {
        if attributes_allowed(entries, limits) {
            lemma_advance(after_count, entries, tail, 0, 0, Map::empty(), limits);
            assert(pairs(after_count, entries.len(), 0, Map::empty(), limits) == content_size(
                tail,
                insert_all(Map::empty(), entries),
                limits,
            ));
        } else {
            lemma_refused(after_count, entries, tail, 0, 0, Map::empty(), limits);
        }
    }
}

/// What was accepted as a header is one.
#[verifier::spinoff_prover]
#[verifier::rlimit(50)]
pub proof fn lemma_unspelled(bytes: Seq<u8>, limits: Limits) -> (entries: Entries)
    requires
        decode_header(bytes, limits) is Accepted,
    ensures
        decode_header(bytes, limits) matches Outcome::Accepted { attributes, size, rest } && spells(bytes, entries, size, rest)
            && attributes == insert_all(Map::empty(), entries) && attributes_allowed(entries, limits) && size_allowed(size, limits),
{
    lemma_counted(bytes.skip(7));
    let (count, after_count) = field_len(bytes.skip(7))->0;
    assert(capped(0) == 0);
    let entries = lemma_accepted(after_count, count, 0, Map::empty(), limits);
    let outcome = decode_header(bytes, limits);
    assert(outcome == pairs(after_count, count, 0, Map::empty(), limits));
    assert(counts(bytes.skip(7), entries.len(), after_count));
    assert(spells(bytes, entries, outcome->size, outcome->Accepted_rest));
    entries
}

/// A header as it is written is one.
pub proof fn lemma_written(entries: Entries, size: u64, rest: Seq<u8>)
    requires
        entries.len() <= u32::MAX,
        forall|i: int| 0 <= i < entries.len() ==> size_of_text(#[trigger] entries[i].0) <= u32::MAX && size_of_text(entries[i].1) <= u32::MAX,
    ensures
        spells(head(entries, size as nat) + rest, entries, size, rest),
{
    let bytes = head(entries, size as nat) + rest;
    let mark = seq![78u8, 105u8, 70u8, 105u8, 70u8, 70u8, 51u8];
    let tail = big_endian(size as nat, 8) + rest;
    let after_count = listing(entries) + tail;
    assert(bytes =~= mark + (length_prefix(entries.len()) + after_count));
    assert(bytes.take(7) =~= mark);
    assert(bytes.skip(7) =~= length_prefix(entries.len()) + after_count);
    lemma_count_written(entries.len(), after_count);
    lemma_list_written(entries, tail);
}

proof fn lemma_count_written(n: nat, rest: Seq<u8>)
    requires
        n <= u32::MAX,
    ensures
        counts(length_prefix(n) + rest, n, rest),
{
    reveal(counts);
}

proof fn lemma_list_written(entries: Entries, rest: Seq<u8>)
    requires
        forall|i: int| 0 <= i < entries.len() ==> size_of_text(#[trigger] entries[i].0) <= u32::MAX && size_of_text(entries[i].1) <= u32::MAX,
    ensures
        lists(listing(entries) + rest, entries, rest),
    decreases entries.len(),
{
    let bytes = listing(entries) + rest;
    if entries.len() == 0 {
        assert(bytes =~= rest);
    } else {
        let others = entries.drop_first();
        assert forall|i: int| 0 <= i < others.len() implies size_of_text(#[trigger] others[i].0) <= u32::MAX && size_of_text(
            others[i].1,
        ) <= u32::MAX by {
            assert(others[i] == entries[i + 1]);
        }
        lemma_list_written(others, rest);
        let after_value = listing(others) + rest;
        let after_key = prefixed(entries[0].1) + after_value;
        assert(size_of_text(entries[0].0) <= u32::MAX);
        lemma_count_written(size_of_text(entries[0].0), encode_utf8(entries[0].0) + after_key);
        lemma_count_written(size_of_text(entries[0].1), encode_utf8(entries[0].1) + after_value);
        assert(bytes =~= length_prefix(size_of_text(entries[0].0)) + (encode_utf8(entries[0].0) + after_key));
        assert(after_key =~= length_prefix(size_of_text(entries[0].1)) + (encode_utf8(entries[0].1) + after_value));
        assert(says(bytes, entries[0].0, after_key) && says(after_key, entries[0].1, after_value));
    }
}

/// What is made of bytes that are a header and `rest`: a flow file with what
/// the header says last of each attribute and with `rest` for its content, or
/// the refusal that is due, with the numbers it is about.
pub open spec fn made_of(r: Result<FlowFile<Vec<u8>>>, entries: Entries, size: u64, rest: Seq<u8>, limits: Limits) -> bool {
    if !attributes_allowed(entries, limits) {
        r matches Err(e) && complains(e, entries, limits)
    } else if !size_allowed(size, limits) {
        &&& r matches Err(Error::ContentTooLarge { size: declared, limit })
        &&& declared == size
        &&& limits.max_content_len == Some(limit)
        &&& size > limit
    } else if rest.len() < size {
        r matches Err(Error::SizeMismatch { expected, actual }) && expected == size && actual == rest.len()
    } else if rest.len() > size {
        r matches Err(Error::TrailingData(more)) && more == rest.len() - size
    } else {
        r matches Ok(f) && f.size == size && f.content@ == rest && last_wins(entries, f.attributes@)
    }
}

/// The complaint about attributes above the limits: there are too many, or the
/// first key or value that is wrong is too long, or makes those up to it too
/// long together.
pub open spec fn complains(e: Error, entries: Entries, limits: Limits) -> bool {
    if limits.max_attributes matches Some(most) && entries.len() > most {
        e matches Error::TooManyAttributes { count, limit } && count == entries.len() && limits.max_attributes == Some(limit)
    } else {
        match e {
            Error::AttributeTooLong { len, limit } => too_much(Refusal::Length { len: len as nat, limit }, entries, 0, limits),
            Error::HeaderTooLarge { len, limit } => too_much(Refusal::Total { len: len as nat, limit }, entries, 0, limits),
            _ => false,
        }
    }
}

proof fn lemma_made_of(bytes: Seq<u8>, entries: Entries, size: u64, rest: Seq<u8>, limits: Limits, r: Result<FlowFile<Vec<u8>>>)
    requires
        spells(bytes, entries, size, rest),
        bytes.len() <= u64::MAX,
        crate::flow_file::parses_as(bytes, limits, r),
    ensures
        made_of(r, entries, size, rest, limits),
{
    lemma_spelled(bytes, entries, size, rest, limits);
    lemma_last_wins(entries);
    assert(rest.len() <= bytes.len()) by {
        lemma_spelled(bytes, entries, size, rest, no_limits());
        crate::decode::lemma_rest_is_suffix(bytes, no_limits());
    }
}

/// Bytes that are a header and something after it give exactly the flow file
/// that they say, or exactly the refusal that they deserve. Attributes may stand
/// in any order, and of a key that is said twice the last value counts.
pub proof fn law_bytes_are_read_as_they_are_written(bytes: &[u8], entries: Entries, size: u64, rest: Seq<u8>, r: Result<FlowFile<Vec<u8>>>)
    requires
        spells(bytes@, entries, size, rest),
        bytes@.len() <= u64::MAX,
        call_ensures(FlowFile::<Vec<u8>>::from_bytes, (bytes,), r),
    ensures
        made_of(r, entries, size, rest, Limits { max_attributes: None, max_attribute_len: None, max_total_attribute_len: None, max_content_len: None }),
{
    lemma_made_of(bytes@, entries, size, rest, no_limits(), r);
}

/// The same under limits, where a header is accepted exactly if the number of
/// attributes, the length of each key and value, their total and the declared
/// size are each at most what the limits say.
pub proof fn law_limited_bytes_are_read_as_they_are_written(
    bytes: &[u8],
    limits: Limits,
    entries: Entries,
    size: u64,
    rest: Seq<u8>,
    r: Result<FlowFile<Vec<u8>>>,
)
    requires
        spells(bytes@, entries, size, rest),
        bytes@.len() <= u64::MAX,
        call_ensures(FlowFile::<Vec<u8>>::from_bytes_with_limits, (bytes, limits), r),
    ensures
        made_of(r, entries, size, rest, limits),
{
    lemma_made_of(bytes@, entries, size, rest, limits, r);
}

/// The same of bytes that are handed over.
pub proof fn law_owned_bytes_are_read_as_they_are_written(
    bytes: Vec<u8>,
    limits: Limits,
    entries: Entries,
    size: u64,
    rest: Seq<u8>,
    r: Result<FlowFile<Vec<u8>>>,
    s: Result<FlowFile<Vec<u8>>>,
)
    requires
        spells(bytes@, entries, size, rest),
        bytes@.len() <= u64::MAX,
        call_ensures(FlowFile::<Vec<u8>>::from_vec_with_limits, (bytes, limits), r),
        call_ensures(FlowFile::<Vec<u8>>::from_vec, (bytes,), s),
    ensures
        made_of(r, entries, size, rest, limits),
        made_of(s, entries, size, rest, Limits { max_attributes: None, max_attribute_len: None, max_total_attribute_len: None, max_content_len: None }),
{
    lemma_made_of(bytes@, entries, size, rest, limits, r);
    lemma_made_of(bytes@, entries, size, rest, no_limits(), s);
}

/// Only bytes that are a header and as much content as it declares are accepted,
/// and only within the limits.
pub proof fn law_what_is_accepted_was_written_so(bytes: &[u8], limits: Limits, r: Result<FlowFile<Vec<u8>>>) -> (entries: Entries)
    requires
        call_ensures(FlowFile::<Vec<u8>>::from_bytes_with_limits, (bytes, limits), r),
        r is Ok,
    ensures
        r matches Ok(f) && spells(bytes@, entries, f.size, f.content@) && f.size == f.content@.len() && last_wins(
            entries,
            f.attributes@,
        ) && attributes_allowed(entries, limits) && size_allowed(f.size, limits),
{
    let entries = lemma_unspelled(bytes@, limits);
    lemma_last_wins(entries);
    entries
}

/// What a flow file is written as is what it is read from, whatever order and
/// number its attributes have.
pub proof fn law_writing_and_reading_agree(
    f: &FlowFile<Vec<u8>>,
    written: Vec<u8>,
    bytes: &[u8],
    r: Result<FlowFile<Vec<u8>>>,
)
    requires
        f.size == f.content@.len(),
        f.attributes@.dom().finite(),
        f.attributes@.len() <= u32::MAX,
        forall|k: Seq<char>| #[trigger] f.attributes@.dom().contains(k) ==> size_of_text(k) <= u32::MAX && size_of_text(f.attributes@[k]) <= u32::MAX,
        call_ensures(FlowFile::<Vec<u8>>::to_bytes, (f,), written),
        bytes@ == written@,
        bytes@.len() <= u64::MAX,
        call_ensures(FlowFile::<Vec<u8>>::from_bytes, (bytes,), r),
    ensures
        r matches Ok(g) && g.size == f.size && g.content@ == f.content@ && g.attributes@ == f.attributes@,
{
    let entries = super::layout::lemma_head(f.attributes@, f.size);
    assert forall|i: int| 0 <= i < entries.len() implies size_of_text(#[trigger] entries[i].0) <= u32::MAX && size_of_text(entries[i].1)
        <= u32::MAX by {
        assert(f.attributes@.dom().contains(entries[i].0));
    }
    lemma_written(entries, f.size, f.content@);
    lemma_made_of(bytes@, entries, f.size, f.content@, no_limits(), r);
    crate::attributes::lemma_sorted_exists(f.attributes@);
    lemma_spelled(bytes@, entries, f.size, f.content@, no_limits());
    assert(crate::attributes::entries_map(entries) == f.attributes@);
}

/// Bytes that start otherwise are no flow file, and the refusal says how they
/// start.
pub proof fn law_a_wrong_start_is_refused(bytes: &[u8], limits: Limits, r: Result<FlowFile<Vec<u8>>>)
    requires
        bytes@.len() >= 7,
        exists|i: int| 0 <= i < 7 && #[trigger] bytes@[i] != seq![78u8, 105u8, 70u8, 105u8, 70u8, 70u8, 51u8][i],
        call_ensures(FlowFile::<Vec<u8>>::from_bytes_with_limits, (bytes, limits), r),
    ensures
        r matches Err(Error::InvalidMagic(found)) && found@ == bytes@.take(7),
{
    let i = choose|i: int| 0 <= i < 7 && #[trigger] bytes@[i] != seq![78u8, 105u8, 70u8, 105u8, 70u8, 70u8, 51u8][i];
    assert(bytes@.take(7)[i] == bytes@[i]);
}

proof fn lemma_field_extends(bytes: Seq<u8>, more: Seq<u8>)
    ensures
        field_len(bytes) matches Some((n, rest)) ==> field_len(bytes + more) == Some((n, rest + more)),
{
    let all = bytes + more;
    if bytes.len() >= 2 {
        assert(all.take(2) =~= bytes.take(2));
        assert(all.skip(2) =~= bytes.skip(2) + more);
        if bytes.len() >= 6 {
            assert(all.subrange(2, 6) =~= bytes.subrange(2, 6));
            assert(all.skip(6) =~= bytes.skip(6) + more);
        }
    }
}

proof fn lemma_text_extends(bytes: Seq<u8>, more: Seq<u8>, total: nat, limits: Limits)
    ensures
        match text(bytes, total, limits) {
            TextOutcome::Text { chars, len, rest } => text(bytes + more, total, limits) == (TextOutcome::Text {
                chars,
                len,
                rest: rest + more,
            }),
            TextOutcome::Stop { why, rest } => why is Truncated || text(bytes + more, total, limits) == (TextOutcome::Stop {
                why,
                rest: rest + more,
            }),
        },
{
    lemma_field_extends(bytes, more);
    if let Some((n, after)) = field_len(bytes) {
        if after.len() >= n {
            assert((after + more).take(n as int) =~= after.take(n as int));
            assert((after + more).skip(n as int) =~= after.skip(n as int) + more);
        }
    }
}

proof fn lemma_pairs_extend(bytes: Seq<u8>, more: Seq<u8>, left: nat, total: nat, before: AttributeMap, limits: Limits)
    ensures
        match pairs(bytes, left, total, before, limits) {
            Outcome::Accepted { attributes, size, rest } => pairs(bytes + more, left, total, before, limits) == (Outcome::Accepted {
                attributes,
                size,
                rest: rest + more,
            }),
            Outcome::Refused { why, rest } => why is Truncated || pairs(bytes + more, left, total, before, limits) == (Outcome::Refused {
                why,
                rest: rest + more,
            }),
        },
    decreases left,
{
    if left == 0 {
        if bytes.len() >= 8 {
            assert((bytes + more).take(8) =~= bytes.take(8));
            assert((bytes + more).skip(8) =~= bytes.skip(8) + more);
        }
    } else {
        lemma_text_extends(bytes, more, total, limits);
        if let TextOutcome::Text { chars: key, len, rest } = text(bytes, total, limits) {
            let total1 = capped(total + len);
            lemma_text_extends(rest, more, total1, limits);
            if let TextOutcome::Text { chars: value, len: len1, rest: rest1 } = text(rest, total1, limits) {
                lemma_pairs_extend(rest1, more, (left - 1) as nat, capped(total1 + len1), before.insert(key, value), limits);
            }
        }
    }
}

/// What is decided from some bytes stays decided when more follow.
pub proof fn lemma_decision_stands(bytes: Seq<u8>, more: Seq<u8>, limits: Limits)
    ensures
        match decode_header(bytes, limits) {
            Outcome::Accepted { attributes, size, rest } => decode_header(bytes + more, limits) == (Outcome::Accepted {
                attributes,
                size,
                rest: rest + more,
            }),
            Outcome::Refused { why, rest } => why is Truncated || decode_header(bytes + more, limits) == (Outcome::Refused {
                why,
                rest: rest + more,
            }),
        },
{
    let all = bytes + more;
    if bytes.len() >= 7 {
        assert(all.take(7) =~= bytes.take(7));
        assert(all.skip(7) =~= bytes.skip(7) + more);
        lemma_field_extends(bytes.skip(7), more);
        if let Some((count, rest)) = field_len(bytes.skip(7)) {
            lemma_pairs_extend(rest, more, count, 0, Map::empty(), limits);
        }
    }
}

/// A header that is cut short anywhere is refused as an end that came too
/// early.
pub proof fn law_a_cut_header_is_an_early_end(
    whole: Seq<u8>,
    entries: Entries,
    size: u64,
    rest: Seq<u8>,
    limits: Limits,
    bytes: &[u8],
    r: Result<FlowFile<Vec<u8>>>,
)
    requires
        spells(whole, entries, size, rest),
        attributes_allowed(entries, limits),
        size_allowed(size, limits),
        bytes@.len() < whole.len() - rest.len(),
        bytes@ == whole.take(bytes@.len() as int),
        call_ensures(FlowFile::<Vec<u8>>::from_bytes_with_limits, (bytes, limits), r),
    ensures
        r matches Err(Error::Io(e)) && e.kind == ErrorKind::UnexpectedEof,
{
    lemma_cut(whole, entries, size, rest, limits, bytes@);
}

/// The bytes stop inside of an acceptable header.
pub open spec fn stops_inside(bytes: Seq<u8>, whole: Seq<u8>, entries: Entries, size: u64, rest: Seq<u8>, limits: Limits) -> bool {
    &&& spells(whole, entries, size, rest)
    &&& attributes_allowed(entries, limits)
    &&& size_allowed(size, limits)
    &&& bytes.len() < whole.len() - rest.len()
    &&& bytes == whole.take(bytes.len() as int)
}

pub proof fn lemma_cut(whole: Seq<u8>, entries: Entries, size: u64, rest: Seq<u8>, limits: Limits, bytes: Seq<u8>)
    requires
        stops_inside(bytes, whole, entries, size, rest, limits),
    ensures
        decode_header(bytes, limits) matches Outcome::Refused { why, .. } && why is Truncated,
{
    let more = whole.skip(bytes.len() as int);
    assert(whole =~= bytes + more);
    lemma_spelled(whole, entries, size, rest, limits);
    lemma_decision_stands(bytes, more, limits);
    if let Outcome::Accepted { attributes, size: size1, rest: rest1 } = decode_header(bytes, limits) {
        assert(rest == rest1 + more);
        assert(rest.len() >= more.len());
    }
}

/// A key or a value that is not UTF-8 is refused, and the refusal holds its
/// bytes.
#[verifier::spinoff_prover]
#[verifier::rlimit(50)]
pub proof fn law_a_text_that_is_not_utf8_is_refused(
    bytes: &[u8],
    count: nat,
    entries: Entries,
    after_count: Seq<u8>,
    at: Seq<u8>,
    key: Option<(Seq<char>, Seq<u8>)>,
    raw: Seq<u8>,
    rest: Seq<u8>,
    r: Result<FlowFile<Vec<u8>>>,
)
    requires
        bytes@.len() >= 7,
        bytes@.take(7) == seq![78u8, 105u8, 70u8, 105u8, 70u8, 70u8, 51u8],
        counts(bytes@.skip(7), count, after_count),
        entries.len() < count,
        lists(after_count, entries, at),
        match key {
            None => counts(at, raw.len(), raw + rest),
            Some((chars, after_key)) => says(at, chars, after_key) && counts(after_key, raw.len(), raw + rest),
        },
        !valid_utf8(raw),
        call_ensures(FlowFile::<Vec<u8>>::from_bytes, (bytes,), r),
    ensures
        r matches Err(Error::InvalidAttribute(invalid)) && invalid.bytes@ == raw,
{
    let limits = no_limits();
    let left = (count - entries.len()) as nat;
    lemma_counts(bytes@.skip(7), count, after_count);
    assert(capped(0) == 0);
    lemma_advance(after_count, entries, at, left, 0, Map::empty(), limits);
    assert((raw + rest).take(raw.len() as int) =~= raw);
    let total = capped(bulk(entries));
    let before = insert_all(Map::empty(), entries);
    let outcome = decode_header(bytes@, limits);
    assert(outcome == pairs(after_count, count, 0, Map::empty(), limits));
    assert(outcome == pairs(at, left, total, before, limits));
    match key {
        None => {
            lemma_counts(at, raw.len(), raw + rest);
            assert(text(at, total, limits) matches TextOutcome::Stop { why: Refusal::Text(found), .. } && found == raw);
        },
        Some((chars, after_key)) => {
            lemma_says(at, chars, after_key, total, limits);
            lemma_counts(after_key, raw.len(), raw + rest);
            let total1 = capped(total + size_of_text(chars));
            assert(text(after_key, total1, limits) matches TextOutcome::Stop { why: Refusal::Text(found), .. } && found == raw);
        },
    }
    assert(outcome matches Outcome::Refused { why: Refusal::Text(found), .. } && found == raw);
}

/// An end inside of the bytes of a key or value says so.
#[verifier::spinoff_prover]
#[verifier::rlimit(50)]
pub proof fn law_a_cut_text_is_told_as_one(
    bytes: &[u8],
    count: nat,
    entries: Entries,
    after_count: Seq<u8>,
    at: Seq<u8>,
    key: Option<(Seq<char>, Seq<u8>)>,
    n: nat,
    body: Seq<u8>,
    r: Result<FlowFile<Vec<u8>>>,
)
    requires
        bytes@.len() >= 7,
        bytes@.take(7) == seq![78u8, 105u8, 70u8, 105u8, 70u8, 70u8, 51u8],
        counts(bytes@.skip(7), count, after_count),
        entries.len() < count,
        lists(after_count, entries, at),
        match key {
            None => counts(at, n, body),
            Some((chars, after_key)) => says(at, chars, after_key) && counts(after_key, n, body),
        },
        body.len() < n,
        call_ensures(FlowFile::<Vec<u8>>::from_bytes, (bytes,), r),
    ensures
        r matches Err(Error::Io(e)) && e.kind == ErrorKind::UnexpectedEof && (e.detail matches Detail::Message(words) && words@
            == "attribute truncated"@),
{
    let limits = no_limits();
    let left = (count - entries.len()) as nat;
    lemma_counts(bytes@.skip(7), count, after_count);
    assert(capped(0) == 0);
    lemma_advance(after_count, entries, at, left, 0, Map::empty(), limits);
    let total = capped(bulk(entries));
    let before = insert_all(Map::empty(), entries);
    let outcome = decode_header(bytes@, limits);
    assert(outcome == pairs(after_count, count, 0, Map::empty(), limits));
    assert(outcome == pairs(at, left, total, before, limits));
    match key {
        None => {
            lemma_counts(at, n, body);
        },
        Some((chars, after_key)) => {
            lemma_says(at, chars, after_key, total, limits);
            lemma_counts(after_key, n, body);
        },
    }
    assert(outcome matches Outcome::Refused { why: Refusal::Truncated { inside_text }, .. } && inside_text);
}

/// An end before the first seven bytes, or inside of the content size, is told
/// as one anywhere else.
#[verifier::spinoff_prover]
#[verifier::rlimit(50)]
pub proof fn law_a_cut_field_is_told_as_one(
    bytes: &[u8],
    entries: Entries,
    after_count: Seq<u8>,
    at: Seq<u8>,
    r: Result<FlowFile<Vec<u8>>>,
)
    requires
        bytes@.len() < 7 || {
            &&& bytes@.take(7) == seq![78u8, 105u8, 70u8, 105u8, 70u8, 70u8, 51u8]
            &&& counts(bytes@.skip(7), entries.len(), after_count)
            &&& lists(after_count, entries, at)
            &&& at.len() < 8
        },
        call_ensures(FlowFile::<Vec<u8>>::from_bytes, (bytes,), r),
    ensures
        r matches Err(Error::Io(e)) && e.kind == ErrorKind::UnexpectedEof && (e.detail matches Detail::Message(words) && words@
            == "failed to fill whole buffer"@),
{
    let limits = no_limits();
    if bytes@.len() >= 7 {
        lemma_counts(bytes@.skip(7), entries.len(), after_count);
        assert(capped(0) == 0);
        lemma_advance(after_count, entries, at, 0, 0, Map::empty(), limits);
        let outcome = decode_header(bytes@, limits);
        assert(outcome == pairs(after_count, entries.len(), 0, Map::empty(), limits));
        assert(outcome == content_size(at, insert_all(Map::empty(), entries), limits));
    }
}

} // verus!
