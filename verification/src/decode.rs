//! Decoding a header, whichever way its bytes arrive.
//!
//! [`decode_header`] says what a header is: a function of the bytes alone.
//! [`HeaderDecoder`] computes it from bytes handed over piece by piece, so that
//! the same decoder serves a buffer, a blocking reader and an asynchronous one.

use vstd::prelude::*;
use vstd::utf8::*;

use crate::attributes::AttributeMap;
use crate::attributes::Attributes;
use crate::error::{Detail, Error, ErrorKind, IoError, Result};
use crate::format::{read_be, write_bytes, MAGIC, MAX_VALUE_2_BYTES};
use crate::format::{be_value, lemma_be_value, lemma_pow256, magic, pow256};
use crate::limits::Limits;
use crate::limits::{capped, over};
use crate::text::string_from_utf8;
use crate::text::utf8_complaint;

verus! {

/// Why a header is refused.
#[allow(inconsistent_fields)]
pub enum Refusal {
    /// The bytes end too early: inside the bytes of a key or value, or
    /// elsewhere.
    Truncated { inside_text: bool },
    /// These seven bytes are not the magic header.
    Magic(Seq<u8>),
    /// These bytes of a key or value are not UTF-8.
    Text(Seq<u8>),
    /// Too many attributes are declared.
    Count { count: nat, limit: usize },
    /// A key or value is declared too long.
    Length { len: nat, limit: usize },
    /// The keys and values declared so far are too long together.
    Total { len: nat, limit: usize },
    /// Too much content is declared.
    Content { size: u64, limit: u64 },
}

/// What becomes of the bytes of a header, and which bytes are left.
pub enum Outcome {
    Accepted { attributes: AttributeMap, size: u64, rest: Seq<u8> },
    Refused { why: Refusal, rest: Seq<u8> },
}

/// What becomes of the bytes of a key or value, and which bytes are left.
pub enum TextOutcome {
    Text { chars: Seq<char>, len: nat, rest: Seq<u8> },
    Stop { why: Refusal, rest: Seq<u8> },
}

/// The message of an end inside a key or value.
pub open spec fn text_cut() -> Seq<char> {
    "attribute truncated"@
}

/// The message of an end anywhere else in a header.
pub open spec fn field_cut() -> Seq<char> {
    "failed to fill whole buffer"@
}

/// The error a refusal is reported as.
pub open spec fn reports(e: Error, why: Refusal) -> bool {
    match why {
        Refusal::Truncated { inside_text } => {
            &&& e matches Error::Io(io)
            &&& io.kind == ErrorKind::UnexpectedEof
            &&& io.detail matches Detail::Message(text)
            &&& text@ == (if inside_text {
                text_cut()
            } else {
                field_cut()
            })
        },
        Refusal::Magic(bytes) => e matches Error::InvalidMagic(found) && found@ == bytes,
        Refusal::Text(bytes) => {
            &&& e matches Error::InvalidAttribute(invalid)
            &&& invalid.bytes@ == bytes
            &&& invalid.reason@ == utf8_complaint(bytes)
        },
        Refusal::Count { count, limit } => e matches Error::TooManyAttributes { count: c, limit: l } && c == count
            && l == limit,
        Refusal::Length { len, limit } => e matches Error::AttributeTooLong { len: n, limit: l } && n == len && l
            == limit,
        Refusal::Total { len, limit } => e matches Error::HeaderTooLarge { len: n, limit: l } && n == len && l == limit,
        Refusal::Content { size, limit } => e == (Error::ContentTooLarge { size, limit }),
    }
}

/// A field length at the front of `bytes`, and what follows it. The extended
/// form is read after the marker, whatever value it holds.
pub open spec fn field_len(bytes: Seq<u8>) -> Option<(nat, Seq<u8>)> {
    if bytes.len() < 2 {
        None
    } else if be_value(bytes.take(2)) < 0xFFFF {
        Some((be_value(bytes.take(2)), bytes.skip(2)))
    } else if bytes.len() < 6 {
        None
    } else {
        Some((be_value(bytes.subrange(2, 6)), bytes.skip(6)))
    }
}

/// What the limits have against a key or value that declares `len` bytes,
/// after `total` bytes of others. Nothing of it has been read at this point.
pub open spec fn objection(len: nat, total: nat, limits: Limits) -> Option<Refusal> {
    if over(len, limits.max_attribute_len) {
        Some(Refusal::Length { len, limit: limits.max_attribute_len->0 })
    } else if over(capped(total + len), limits.max_total_attribute_len) {
        Some(Refusal::Total { len: capped(total + len), limit: limits.max_total_attribute_len->0 })
    } else {
        None
    }
}

/// The `len` bytes of a key or value at the front of `bytes`.
pub open spec fn text_body(bytes: Seq<u8>, len: nat) -> TextOutcome {
    if bytes.len() < len {
        TextOutcome::Stop { why: Refusal::Truncated { inside_text: true }, rest: Seq::empty() }
    } else if !valid_utf8(bytes.take(len as int)) {
        TextOutcome::Stop { why: Refusal::Text(bytes.take(len as int)), rest: bytes.skip(len as int) }
    } else {
        TextOutcome::Text { chars: decode_utf8(bytes.take(len as int)), len, rest: bytes.skip(len as int) }
    }
}

/// A key or value at the front of `bytes`: its length, then its bytes.
pub open spec fn text(bytes: Seq<u8>, total: nat, limits: Limits) -> TextOutcome {
    match field_len(bytes) {
        None => TextOutcome::Stop { why: Refusal::Truncated { inside_text: false }, rest: Seq::empty() },
        Some((len, rest)) => match objection(len, total, limits) {
            Some(why) => TextOutcome::Stop { why, rest },
            None => text_body(rest, len),
        },
    }
}

/// `left` attributes at the front of `bytes`, then the content size, given
/// what was read before them.
pub open spec fn pairs(bytes: Seq<u8>, left: nat, total: nat, before: AttributeMap, limits: Limits) -> Outcome
    decreases left, 2nat,
{
    if left == 0 {
        content_size(bytes, before, limits)
    } else {
        with_key(text(bytes, total, limits), left, total, before, limits)
    }
}

/// The rest of a header after a key.
pub open spec fn with_key(key: TextOutcome, left: nat, total: nat, before: AttributeMap, limits: Limits) -> Outcome
    decreases left, 1nat,
{
    match key {
        TextOutcome::Stop { why, rest } => Outcome::Refused { why, rest },
        TextOutcome::Text { chars, len, rest } => with_value(
            chars,
            text(rest, capped(total + len), limits),
            left,
            capped(total + len),
            before,
            limits,
        ),
    }
}

/// The rest of a header after a value.
pub open spec fn with_value(
    key: Seq<char>,
    value: TextOutcome,
    left: nat,
    total: nat,
    before: AttributeMap,
    limits: Limits,
) -> Outcome
    decreases left, 0nat,
{
    match value {
        TextOutcome::Stop { why, rest } => Outcome::Refused { why, rest },
        TextOutcome::Text { chars, len, rest } => if left == 0 {
            Outcome::Refused { why: Refusal::Truncated { inside_text: false }, rest }
        } else {
            pairs(rest, (left - 1) as nat, capped(total + len), before.insert(key, chars), limits)
        },
    }
}

/// The content size at the front of `bytes`, which ends a header.
pub open spec fn content_size(bytes: Seq<u8>, attributes: AttributeMap, limits: Limits) -> Outcome {
    if bytes.len() < 8 {
        Outcome::Refused { why: Refusal::Truncated { inside_text: false }, rest: Seq::empty() }
    } else {
        let size = be_value(bytes.take(8)) as u64;
        if !limits.content_fits(size) {
            Outcome::Refused {
                why: Refusal::Content { size, limit: limits.max_content_len->0 },
                rest: bytes.skip(8),
            }
        } else {
            Outcome::Accepted { attributes, size, rest: bytes.skip(8) }
        }
    }
}

/// The attribute count at the front of `bytes`, and the rest of a header.
pub open spec fn attribute_count(bytes: Seq<u8>, limits: Limits) -> Outcome {
    match field_len(bytes) {
        None => Outcome::Refused { why: Refusal::Truncated { inside_text: false }, rest: Seq::empty() },
        Some((count, rest)) => if over(count, limits.max_attributes) {
            Outcome::Refused { why: Refusal::Count { count, limit: limits.max_attributes->0 }, rest }
        } else {
            pairs(rest, count, 0, Map::empty(), limits)
        },
    }
}

/// What becomes of `bytes` as the header of a flow file, under `limits`.
///
/// The bytes are looked at in order, and the first thing wrong with them
/// decides. A length over the limits is refused where it is declared, with the
/// bytes it is about still unread.
pub open spec fn decode_header(bytes: Seq<u8>, limits: Limits) -> Outcome {
    if bytes.len() < 7 {
        Outcome::Refused { why: Refusal::Truncated { inside_text: false }, rest: Seq::empty() }
    } else if bytes.take(7) != magic() {
        Outcome::Refused { why: Refusal::Magic(bytes.take(7)), rest: bytes.skip(7) }
    } else {
        attribute_count(bytes.skip(7), limits)
    }
}

/// What a decoder that was handed `chunk` goes on to, or that it was refused:
/// whatever follows, the same comes of it as of the chunk before it.
pub open spec fn goes_on(decoder: HeaderDecoder, chunk: Seq<u8>, r: Result<HeaderDecoder>) -> bool {
    forall|rest: Seq<u8>| #[trigger] lands(r, rest, decoder.outcome(chunk + rest))
}

/// What a decoder was handed is a header with these attributes and this size.
pub open spec fn comes_to(decoder: HeaderDecoder, attributes: AttributeMap, size: u64) -> bool {
    forall|rest: Seq<u8>| #[trigger] decoder.outcome(rest) == (Outcome::Accepted { attributes, size, rest })
}

/// What is left over is a part of what was there.
pub open spec fn suffix(rest: Seq<u8>, bytes: Seq<u8>) -> bool {
    rest.len() <= bytes.len() && rest == bytes.skip(bytes.len() - rest.len())
}

proof fn lemma_suffix_skip(bytes: Seq<u8>, n: int)
    requires
        0 <= n <= bytes.len(),
    ensures
        suffix(bytes.skip(n), bytes),
{
    assert(bytes.skip(n) =~= bytes.skip(bytes.len() - bytes.skip(n).len()));
}

proof fn lemma_suffix_transitive(a: Seq<u8>, b: Seq<u8>, c: Seq<u8>)
    requires
        suffix(a, b),
        suffix(b, c),
    ensures
        suffix(a, c),
{
    assert(a =~= c.skip(c.len() - a.len()));
}

proof fn lemma_text_suffix(bytes: Seq<u8>, total: nat, limits: Limits)
    ensures
        text(bytes, total, limits) matches TextOutcome::Text { chars, len, rest } ==> suffix(rest, bytes),
{
    if let Some((len, after)) = field_len(bytes) {
        lemma_suffix_skip(bytes, 2);
        if bytes.len() >= 6 {
            lemma_suffix_skip(bytes, 6);
        }
        if after.len() >= len {
            lemma_suffix_skip(after, len as int);
            lemma_suffix_transitive(after.skip(len as int), after, bytes);
        }
    }
}

proof fn lemma_pairs_suffix(bytes: Seq<u8>, left: nat, total: nat, before: AttributeMap, limits: Limits)
    ensures
        pairs(bytes, left, total, before, limits) matches Outcome::Accepted { attributes, size, rest } ==> suffix(
            rest,
            bytes,
        ),
    decreases left,
{
    if left == 0 {
        if bytes.len() >= 8 {
            lemma_suffix_skip(bytes, 8);
        }
    } else {
        lemma_text_suffix(bytes, total, limits);
        if let TextOutcome::Text { chars: key, len, rest } = text(bytes, total, limits) {
            let total1 = capped(total + len);
            lemma_text_suffix(rest, total1, limits);
            if let TextOutcome::Text { chars: value, len: len1, rest: rest1 } = text(rest, total1, limits) {
                lemma_pairs_suffix(
                    rest1,
                    (left - 1) as nat,
                    capped(total1 + len1),
                    before.insert(key, value),
                    limits,
                );
                let end = pairs(rest1, (left - 1) as nat, capped(total1 + len1), before.insert(key, value), limits);
                if let Outcome::Accepted { attributes, size, rest: rest2 } = end {
                    lemma_suffix_transitive(rest2, rest1, rest);
                    lemma_suffix_transitive(rest2, rest, bytes);
                }
            }
        }
    }
}

/// What an accepted header leaves is what follows it.
pub proof fn lemma_rest_is_suffix(bytes: Seq<u8>, limits: Limits)
    ensures
        decode_header(bytes, limits) matches Outcome::Accepted { attributes, size, rest } ==> suffix(rest, bytes)
            && rest.len() < bytes.len(),
{
    if bytes.len() >= 7 {
        let after = bytes.skip(7);
        lemma_suffix_skip(bytes, 7);
        if let Some((count, next)) = field_len(after) {
            lemma_suffix_skip(after, 2);
            if after.len() >= 6 {
                lemma_suffix_skip(after, 6);
            }
            lemma_pairs_suffix(next, count, 0, Map::empty(), limits);
            if let Outcome::Accepted { attributes, size, rest } = pairs(next, count, 0, Map::empty(), limits) {
                lemma_suffix_transitive(rest, next, after);
                lemma_suffix_transitive(rest, after, bytes);
            }
        }
    }
}

/// The field length that `have` is, if it is a whole one.
pub(crate) open spec fn whole_len(have: Seq<u8>) -> Option<nat> {
    if have.len() == 2 && be_value(have.take(2)) < 0xFFFF {
        Some(be_value(have.take(2)))
    } else if have.len() == 6 {
        Some(be_value(have.subrange(2, 6)))
    } else {
        None
    }
}

/// What follows a field length does not change it.
pub(crate) proof fn lemma_field_len(have: Seq<u8>, rest: Seq<u8>)
    requires
        have.len() == 6 ==> be_value(have.take(2)) >= 0xFFFF,
    ensures
        whole_len(have) matches Some(len) ==> field_len(have + rest) == Some((len, rest)),
{
    let bytes = have + rest;
    if whole_len(have) is Some {
        assert(bytes.take(2) =~= have.take(2));
        if have.len() == 2 {
            assert(bytes.skip(2) =~= rest);
        } else {
            assert(bytes.subrange(2, 6) =~= have.subrange(2, 6));
            assert(bytes.skip(6) =~= rest);
        }
    }
}

/// The field length that `have` is, if it is a whole one.
pub(crate) fn complete_len(have: &Vec<u8>) -> (len: Option<usize>)
    requires
        have@.len() <= 6,
    ensures
        match len {
            Some(n) => whole_len(have@) == Some(n as nat),
            None => whole_len(have@) is None,
        },
        len matches Some(n) ==> n <= u32::MAX,
{
    proof {
        lemma_pow256();
        lemma_be_value(have@);
    }
    if have.len() == 2 {
        let short: u64 = read_be(have.as_slice());
        assert(have@.take(2) =~= have@);
        if short < MAX_VALUE_2_BYTES as u64 {
            Some(short as usize)
        } else {
            None
        }
    } else if have.len() == 6 {
        let tail = vstd::slice::slice_subrange(have.as_slice(), 2, 6);
        proof {
            lemma_be_value(tail@);
            assert(pow256(4) == 0x1_0000_0000);
        }
        let long: u64 = read_be(tail);
        Some(long as usize)
    } else {
        None
    }
}

/// Feeding a decoder agrees with what is to become of the header: it goes on
/// to that outcome, or reports the refusal that it is.
pub open spec fn lands(r: Result<HeaderDecoder>, rest: Seq<u8>, outcome: Outcome) -> bool {
    match r {
        Ok(decoder) => decoder.outcome(rest) == outcome,
        Err(e) => {
            &&& outcome matches Outcome::Refused { why, rest: unread }
            &&& unread == rest
            &&& !(why is Truncated)
            &&& reports(e, why)
        },
    }
}

/// What the decoder is waiting for.
#[derive(Debug)]
enum Stage {
    Magic,
    Count,
    KeyLen,
    Key { len: usize },
    ValueLen { key: String },
    Value { key: String, len: usize },
    Size,
    Done { size: u64 },
}

/// A header on its way in.
///
/// Ask [`wanted`](Self::wanted) how many bytes it is waiting for, hand over up
/// to that many with [`feed`](Self::feed), and repeat until it wants none. It
/// never asks for a byte past the header, and holds no more than the bytes it
/// was given.
#[derive(Debug)]
pub struct HeaderDecoder {
    limits: Limits,
    stage: Stage,
    have: Vec<u8>,
    attributes: Attributes,
    left: usize,
    total: usize,
}

impl HeaderDecoder {
    #[verifier::type_invariant]
    spec fn coherent(&self) -> bool {
        match self.stage {
            Stage::Magic => self.have@.len() < 7,
            Stage::Count => self.have@.len() < 6 && self.marked(),
            Stage::KeyLen => self.have@.len() < 6 && self.marked() && self.left > 0,
            Stage::ValueLen { .. } => self.have@.len() < 6 && self.marked() && self.left > 0,
            Stage::Key { len } => self.have@.len() < len && self.left > 0,
            Stage::Value { len, .. } => self.have@.len() < len && self.left > 0,
            Stage::Size => self.have@.len() < 8,
            Stage::Done { .. } => self.have@.len() == 0,
        }
    }

    /// A field length of which two bytes are here begins with the marker.
    spec fn marked(&self) -> bool {
        self.have@.len() >= 2 ==> be_value(self.have@.take(2)) >= 0xFFFF
    }

    /// What becomes of the header if `bytes` are what is here of the current
    /// item and everything after it.
    spec fn resume(&self, bytes: Seq<u8>) -> Outcome {
        let left = self.left as nat;
        let total = self.total as nat;
        match self.stage {
            Stage::Magic => decode_header(bytes, self.limits),
            Stage::Count => attribute_count(bytes, self.limits),
            Stage::KeyLen => pairs(bytes, left, total, self.attributes@, self.limits),
            Stage::Key { len } => with_key(
                text_body(bytes, len as nat),
                left,
                total,
                self.attributes@,
                self.limits,
            ),
            Stage::ValueLen { key } => with_value(
                key@,
                text(bytes, total, self.limits),
                left,
                total,
                self.attributes@,
                self.limits,
            ),
            Stage::Value { key, len } => with_value(
                key@,
                text_body(bytes, len as nat),
                left,
                total,
                self.attributes@,
                self.limits,
            ),
            Stage::Size => content_size(bytes, self.attributes@, self.limits),
            Stage::Done { size } => Outcome::Accepted { attributes: self.attributes@, size, rest: bytes },
        }
    }

    /// What becomes of the header if `rest` are the bytes still to come.
    pub closed spec fn outcome(&self, rest: Seq<u8>) -> Outcome {
        self.resume(self.have@ + rest)
    }

    /// How many bytes complete the current item.
    pub closed spec fn missing(&self) -> nat {
        match self.stage {
            Stage::Magic => (7 - self.have@.len()) as nat,
            Stage::Count | Stage::KeyLen | Stage::ValueLen { .. } => if self.have@.len() < 2 {
                (2 - self.have@.len()) as nat
            } else {
                (6 - self.have@.len()) as nat
            },
            Stage::Key { len } => (len - self.have@.len()) as nat,
            Stage::Value { len, .. } => (len - self.have@.len()) as nat,
            Stage::Size => (8 - self.have@.len()) as nat,
            Stage::Done { .. } => 0,
        }
    }

    /// Start on a header.
    pub fn new(limits: Limits) -> (decoder: HeaderDecoder)
        ensures
            forall|bytes: Seq<u8>| #[trigger] decoder.outcome(bytes) == decode_header(bytes, limits),
            decoder.missing() == 7,
    {
        let decoder = HeaderDecoder {
            limits,
            stage: Stage::Magic,
            have: Vec::new(),
            attributes: Attributes::new(),
            left: 0,
            total: 0,
        };
        assert forall|bytes: Seq<u8>| #[trigger] decoder.outcome(bytes) == decode_header(bytes, limits) by {
            assert(decoder.have@ + bytes =~= bytes);
        }
        decoder
    }

    /// How many bytes the decoder can take before it looks at them. None, when
    /// the header is complete.
    pub fn wanted(&self) -> (n: usize)
        ensures
            n == self.missing(),
    {
        proof {
            use_type_invariant(self);
        }
        let have: usize = self.have.len();
        match &self.stage {
            Stage::Magic => 7 - have,
            Stage::Count | Stage::KeyLen | Stage::ValueLen { .. } => if have < 2 {
                2 - have
            } else {
                6 - have
            },
            Stage::Key { len } => *len - have,
            Stage::Value { len, .. } => *len - have,
            Stage::Size => 8 - have,
            Stage::Done { .. } => 0,
        }
    }

    /// Whether the header is complete.
    pub fn is_done(&self) -> (done: bool)
        ensures
            done == (self.missing() == 0),
    {
        self.wanted() == 0
    }

    /// On to the next attribute, or to the content size after the last.
    fn next_pair(limits: Limits, attributes: Attributes, left: usize, total: usize) -> (decoder: HeaderDecoder)
        ensures
            forall|rest: Seq<u8>|
                #![trigger decoder.outcome(rest)]
                decoder.outcome(rest) == pairs(rest, left as nat, total as nat, attributes@, limits),
    {
        let have: Vec<u8> = Vec::new();
        let stage = if left == 0 {
            Stage::Size
        } else {
            Stage::KeyLen
        };
        let decoder = HeaderDecoder { limits, stage, have, attributes, left, total };
        assert forall|rest: Seq<u8>| #[trigger]
            decoder.outcome(rest) == pairs(rest, left as nat, total as nat, attributes@, limits) by {
            assert(decoder.have@ + rest =~= rest);
        }
        decoder
    }

    /// All the bytes of a value are here.
    fn value_done(
        limits: Limits,
        key: String,
        bytes: Vec<u8>,
        attributes: Attributes,
        left: usize,
        total: usize,
    ) -> (r: Result<HeaderDecoder>)
        requires
            left > 0,
        ensures
            forall|rest: Seq<u8>| #[trigger]
                lands(
                    r,
                    rest,
                    with_value(
                        key@,
                        text_body(bytes@ + rest, bytes@.len()),
                        left as nat,
                        total as nat,
                        attributes@,
                        limits,
                    ),
                ),
    {
        let len: usize = bytes.len();
        let ghost b = bytes@;
        let ghost k = key@;
        let ghost before = attributes@;
        assert forall|rest: Seq<u8>| #[trigger] (b + rest).take(b.len() as int) == b && (b + rest).skip(b.len() as int)
            == rest by {
            assert((b + rest).take(b.len() as int) =~= b);
            assert((b + rest).skip(b.len() as int) =~= rest);
        }
        match string_from_utf8(bytes) {
            Ok(value) => {
                proof {
                    encode_utf8_decode_utf8(value@);
                }
                let mut attributes = attributes;
                attributes.insert(key, value);
                let decoder = Self::next_pair(limits, attributes, left - 1, total.saturating_add(len));
                let r: Result<HeaderDecoder> = Ok(decoder);
                assert forall|rest: Seq<u8>| #[trigger]
                    lands(
                        r,
                        rest,
                        with_value(k, text_body(b + rest, b.len()), left as nat, total as nat, before, limits),
                    ) by {
                    assert((b + rest).take(b.len() as int) == b);
                }
                r
            },
            Err(invalid) => {
                let r: Result<HeaderDecoder> = Err(Error::InvalidAttribute(invalid));
                assert forall|rest: Seq<u8>| #[trigger]
                    lands(
                        r,
                        rest,
                        with_value(k, text_body(b + rest, b.len()), left as nat, total as nat, before, limits),
                    ) by {
                    assert((b + rest).take(b.len() as int) == b);
                }
                r
            },
        }
    }

    /// All the bytes of a key are here.
    fn key_done(limits: Limits, bytes: Vec<u8>, attributes: Attributes, left: usize, total: usize) -> (r: Result<
        HeaderDecoder,
    >)
        requires
            left > 0,
        ensures
            forall|rest: Seq<u8>| #[trigger]
                lands(
                    r,
                    rest,
                    with_key(text_body(bytes@ + rest, bytes@.len()), left as nat, total as nat, attributes@, limits),
                ),
    {
        let len: usize = bytes.len();
        let ghost b = bytes@;
        let ghost before = attributes@;
        assert forall|rest: Seq<u8>| #[trigger] (b + rest).take(b.len() as int) == b && (b + rest).skip(b.len() as int)
            == rest by {
            assert((b + rest).take(b.len() as int) =~= b);
            assert((b + rest).skip(b.len() as int) =~= rest);
        }
        match string_from_utf8(bytes) {
            Ok(key) => {
                proof {
                    encode_utf8_decode_utf8(key@);
                }
                let have: Vec<u8> = Vec::new();
                let decoder = HeaderDecoder {
                    limits,
                    stage: Stage::ValueLen { key },
                    have,
                    attributes,
                    left,
                    total: total.saturating_add(len),
                };
                let r: Result<HeaderDecoder> = Ok(decoder);
                assert forall|rest: Seq<u8>| #[trigger]
                    lands(
                        r,
                        rest,
                        with_key(text_body(b + rest, b.len()), left as nat, total as nat, before, limits),
                    ) by {
                    assert((b + rest).take(b.len() as int) == b);
                    assert(decoder.have@ + rest =~= rest);
                }
                r
            },
            Err(invalid) => {
                let r: Result<HeaderDecoder> = Err(Error::InvalidAttribute(invalid));
                assert forall|rest: Seq<u8>| #[trigger]
                    lands(
                        r,
                        rest,
                        with_key(text_body(b + rest, b.len()), left as nat, total as nat, before, limits),
                    ) by {
                    assert((b + rest).take(b.len() as int) == b);
                }
                r
            },
        }
    }

    /// What the limits have against a key or value of `len` bytes.
    fn declared(limits: Limits, len: usize, total: usize) -> (r: Result<()>)
        ensures
            match r {
                Ok(_) => objection(len as nat, total as nat, limits) is None,
                Err(e) => objection(len as nat, total as nat, limits) matches Some(why) && reports(e, why),
            },
    {
        match limits.check_len(len) {
            Ok(_) => limits.check_total(total.saturating_add(len)),
            Err(e) => Err(e),
        }
    }

    /// The length of a key is here.
    fn key_declared(limits: Limits, len: usize, attributes: Attributes, left: usize, total: usize) -> (r: Result<
        HeaderDecoder,
    >)
        requires
            left > 0,
        ensures
            forall|rest: Seq<u8>| #[trigger]
                lands(
                    r,
                    rest,
                    with_key(declared_text(rest, len as nat, total as nat, limits), left as nat, total as nat, attributes@, limits),
                ),
    {
        let ghost before = attributes@;
        if let Err(e) = Self::declared(limits, len, total) {
            return Err(e);
        }
        if len == 0 {
            let nothing: Vec<u8> = Vec::new();
            let r = Self::key_done(limits, nothing, attributes, left, total);
            assert forall|rest: Seq<u8>| #[trigger]
                lands(
                    r,
                    rest,
                    with_key(declared_text(rest, 0, total as nat, limits), left as nat, total as nat, before, limits),
                ) by {
                assert(nothing@ + rest =~= rest);
                assert(lands(
                    r,
                    rest,
                    with_key(
                        text_body(nothing@ + rest, nothing@.len()),
                        left as nat,
                        total as nat,
                        before,
                        limits,
                    ),
                ));
            }
            r
        } else {
            let have: Vec<u8> = Vec::new();
            let decoder = HeaderDecoder { limits, stage: Stage::Key { len }, have, attributes, left, total };
            let r: Result<HeaderDecoder> = Ok(decoder);
            assert forall|rest: Seq<u8>| #[trigger]
                lands(
                    r,
                    rest,
                    with_key(declared_text(rest, len as nat, total as nat, limits), left as nat, total as nat, before, limits),
                ) by {
                assert(decoder.have@ + rest =~= rest);
            }
            r
        }
    }

    /// The length of a value is here.
    fn value_declared(
        limits: Limits,
        key: String,
        len: usize,
        attributes: Attributes,
        left: usize,
        total: usize,
    ) -> (r: Result<HeaderDecoder>)
        requires
            left > 0,
        ensures
            forall|rest: Seq<u8>| #[trigger]
                lands(
                    r,
                    rest,
                    with_value(key@, declared_text(rest, len as nat, total as nat, limits), left as nat, total as nat, attributes@, limits),
                ),
    {
        let ghost before = attributes@;
        let ghost k = key@;
        if let Err(e) = Self::declared(limits, len, total) {
            return Err(e);
        }
        if len == 0 {
            let nothing: Vec<u8> = Vec::new();
            let r = Self::value_done(limits, key, nothing, attributes, left, total);
            assert forall|rest: Seq<u8>| #[trigger]
                lands(
                    r,
                    rest,
                    with_value(k, declared_text(rest, 0, total as nat, limits), left as nat, total as nat, before, limits),
                ) by {
                assert(nothing@ + rest =~= rest);
                assert(lands(
                    r,
                    rest,
                    with_value(
                        k,
                        text_body(nothing@ + rest, nothing@.len()),
                        left as nat,
                        total as nat,
                        before,
                        limits,
                    ),
                ));
            }
            r
        } else {
            let have: Vec<u8> = Vec::new();
            let decoder = HeaderDecoder { limits, stage: Stage::Value { key, len }, have, attributes, left, total };
            let r: Result<HeaderDecoder> = Ok(decoder);
            assert forall|rest: Seq<u8>| #[trigger]
                lands(
                    r,
                    rest,
                    with_value(k, declared_text(rest, len as nat, total as nat, limits), left as nat, total as nat, before, limits),
                ) by {
                assert(decoder.have@ + rest =~= rest);
            }
            r
        }
    }

    /// Bytes of the magic header.
    fn take_magic(limits: Limits, have: Vec<u8>, attributes: Attributes, left: usize, total: usize) -> (r: Result<
        HeaderDecoder,
    >)
        requires
            have@.len() <= 7,
        ensures
            forall|rest: Seq<u8>| #[trigger] lands(r, rest, decode_header(have@ + rest, limits)),
    {
        let ghost b = have@;
        if have.len() < 7 {
            return Ok(HeaderDecoder { limits, stage: Stage::Magic, have, attributes, left, total });
        }
        let found: [u8; 7] = [have[0], have[1], have[2], have[3], have[4], have[5], have[6]];
        assert(found@ =~= b);
        assert forall|rest: Seq<u8>| #[trigger] (b + rest).take(7) == b && (b + rest).skip(7) == rest by {
            assert((b + rest).take(7) =~= b);
            assert((b + rest).skip(7) =~= rest);
        }
        assert(MAGIC@ =~= magic());
        if !same_bytes(&found, &MAGIC) {
            let r: Result<HeaderDecoder> = Err(Error::InvalidMagic(found));
            assert forall|rest: Seq<u8>| #[trigger] lands(r, rest, decode_header(b + rest, limits)) by {
                assert((b + rest).take(7) == b);
            }
            return r;
        }
        let fresh: Vec<u8> = Vec::new();
        let decoder = HeaderDecoder { limits, stage: Stage::Count, have: fresh, attributes, left, total };
        let r: Result<HeaderDecoder> = Ok(decoder);
        assert forall|rest: Seq<u8>| #[trigger] lands(r, rest, decode_header(b + rest, limits)) by {
            assert((b + rest).take(7) == b);
            assert(decoder.have@ + rest =~= rest);
        }
        r
    }

    /// Bytes of the attribute count.
    fn take_count(limits: Limits, have: Vec<u8>, attributes: Attributes, left: usize, total: usize) -> (r: Result<
        HeaderDecoder,
    >)
        requires
            have@.len() <= 6,
            have@.len() > 2 ==> be_value(have@.take(2)) >= 0xFFFF,
        ensures
            forall|rest: Seq<u8>| #[trigger] lands(r, rest, attribute_count(have@ + rest, limits)),
    {
        let ghost b = have@;
        match complete_len(&have) {
            None => {
                assert(b.len() >= 2 ==> be_value(b.take(2)) >= 0xFFFF);
                Ok(HeaderDecoder { limits, stage: Stage::Count, have, attributes, left, total })
            },
            Some(count) => {
                if let Err(e) = limits.check_count(count) {
                    let r: Result<HeaderDecoder> = Err(e);
                    assert forall|rest: Seq<u8>| #[trigger] lands(r, rest, attribute_count(b + rest, limits)) by {
                        lemma_field_len(b, rest);
                    }
                    return r;
                }
                let none = Attributes::new();
                let decoder = Self::next_pair(limits, none, count, 0);
                let r: Result<HeaderDecoder> = Ok(decoder);
                assert forall|rest: Seq<u8>| #[trigger] lands(r, rest, attribute_count(b + rest, limits)) by {
                    lemma_field_len(b, rest);
                }
                r
            },
        }
    }

    /// Bytes of the length of a key.
    fn take_key_len(limits: Limits, have: Vec<u8>, attributes: Attributes, left: usize, total: usize) -> (r: Result<
        HeaderDecoder,
    >)
        requires
            have@.len() <= 6,
            have@.len() > 2 ==> be_value(have@.take(2)) >= 0xFFFF,
            left > 0,
        ensures
            forall|rest: Seq<u8>| #[trigger] lands(r, rest, pairs(have@ + rest, left as nat, total as nat, attributes@, limits)),
    {
        let ghost b = have@;
        let ghost before = attributes@;
        match complete_len(&have) {
            None => {
                assert(b.len() >= 2 ==> be_value(b.take(2)) >= 0xFFFF);
                let decoder = HeaderDecoder { limits, stage: Stage::KeyLen, have, attributes, left, total };
                Ok(decoder)
            },
            Some(len) => {
                let r = Self::key_declared(limits, len, attributes, left, total);
                assert forall|rest: Seq<u8>| #[trigger] lands(r, rest, pairs(b + rest, left as nat, total as nat, before, limits)) by {
                    lemma_field_len(b, rest);
                    assert(lands(r, rest, with_key(declared_text(rest, len as nat, total as nat, limits), left as nat, total as nat, before, limits)));
                }
                r
            },
        }
    }

    /// Bytes of the length of a value.
    fn take_value_len(limits: Limits, key: String, have: Vec<u8>, attributes: Attributes, left: usize, total: usize) -> (r: Result<
        HeaderDecoder,
    >)
        requires
            have@.len() <= 6,
            have@.len() > 2 ==> be_value(have@.take(2)) >= 0xFFFF,
            left > 0,
        ensures
            forall|rest: Seq<u8>| #[trigger] lands(r, rest, with_value(key@, text(have@ + rest, total as nat, limits), left as nat, total as nat, attributes@, limits)),
    {
        let ghost b = have@;
        let ghost before = attributes@;
        let ghost k = key@;
        match complete_len(&have) {
            None => {
                assert(b.len() >= 2 ==> be_value(b.take(2)) >= 0xFFFF);
                let decoder = HeaderDecoder { limits, stage: Stage::ValueLen { key }, have, attributes, left, total };
                Ok(decoder)
            },
            Some(len) => {
                let r = Self::value_declared(limits, key, len, attributes, left, total);
                assert forall|rest: Seq<u8>| #[trigger] lands(r, rest, with_value(k, text(b + rest, total as nat, limits), left as nat, total as nat, before, limits)) by {
                    lemma_field_len(b, rest);
                    assert(lands(r, rest, with_value(k, declared_text(rest, len as nat, total as nat, limits), left as nat, total as nat, before, limits)));
                }
                r
            },
        }
    }

    /// Bytes of the content size.
    fn take_size(limits: Limits, have: Vec<u8>, attributes: Attributes, left: usize, total: usize) -> (r: Result<
        HeaderDecoder,
    >)
        requires
            have@.len() <= 8,
        ensures
            forall|rest: Seq<u8>| #[trigger] lands(r, rest, content_size(have@ + rest, attributes@, limits)),
    {
        let ghost b = have@;
        let ghost before = attributes@;
        if have.len() < 8 {
            return Ok(HeaderDecoder { limits, stage: Stage::Size, have, attributes, left, total });
        }
        let size: u64 = read_be(have.as_slice());
        assert forall|rest: Seq<u8>| #[trigger] (b + rest).take(8) == b && (b + rest).skip(8) == rest by {
            assert((b + rest).take(8) =~= b);
            assert((b + rest).skip(8) =~= rest);
        }
        if let Err(e) = limits.check_content(size) {
            let r: Result<HeaderDecoder> = Err(e);
            assert forall|rest: Seq<u8>| #[trigger] lands(r, rest, content_size(b + rest, before, limits)) by {
                assert((b + rest).take(8) == b);
            }
            return r;
        }
        let fresh: Vec<u8> = Vec::new();
        let decoder = HeaderDecoder { limits, stage: Stage::Done { size }, have: fresh, attributes, left, total };
        let r: Result<HeaderDecoder> = Ok(decoder);
        assert forall|rest: Seq<u8>| #[trigger] lands(r, rest, content_size(b + rest, before, limits)) by {
            assert((b + rest).take(8) == b);
            assert(decoder.have@ + rest =~= rest);
        }
        r
    }

    /// Hand over bytes: up to as many as are [`wanted`](Self::wanted).
    ///
    /// # Errors
    ///
    /// Whatever is wrong with the header, as soon as the bytes show it. A
    /// length over the limits is refused as soon as it is declared.
    #[verifier::spinoff_prover]
    #[verifier::rlimit(60)]
    pub fn feed(self, chunk: &[u8]) -> (r: Result<HeaderDecoder>)
        requires
            chunk@.len() <= self.missing(),
        ensures
            forall|rest: Seq<u8>| #[trigger] lands(r, rest, self.outcome(chunk@ + rest)),
            goes_on(self, chunk@, r),
    {
        proof {
            use_type_invariant(&self);
        }
        let ghost start = self;
        let HeaderDecoder { limits, stage, have, attributes, left, total } = self;
        let mut have = have;
        write_bytes(&mut have, chunk);
        let ghost b = have@;
        let ghost before = attributes@;
        assert forall|rest: Seq<u8>| #[trigger] start.outcome(chunk@ + rest) == start.resume(b + rest) by {
            assert(start.have@ + (chunk@ + rest) =~= b + rest);
        }
        assert(start.have@.len() >= 2 ==> b.take(2) =~= start.have@.take(2));
        let r: Result<HeaderDecoder> = match stage {
            Stage::Magic => {
                let r = Self::take_magic(limits, have, attributes, left, total);
                assert forall|rest: Seq<u8>| #[trigger] lands(r, rest, start.resume(b + rest)) by {
                    assert(lands(r, rest, decode_header(b + rest, limits)));
                }
                r
            },
            Stage::Count => {
                let r = Self::take_count(limits, have, attributes, left, total);
                assert forall|rest: Seq<u8>| #[trigger] lands(r, rest, start.resume(b + rest)) by {
                    assert(lands(r, rest, attribute_count(b + rest, limits)));
                }
                r
            },
            Stage::KeyLen => {
                let r = Self::take_key_len(limits, have, attributes, left, total);
                assert forall|rest: Seq<u8>| #[trigger] lands(r, rest, start.resume(b + rest)) by {
                    assert(lands(r, rest, pairs(b + rest, left as nat, total as nat, before, limits)));
                }
                r
            },
            Stage::Key { len } => if have.len() < len {
                Ok(HeaderDecoder { limits, stage: Stage::Key { len }, have, attributes, left, total })
            } else {
                let r = Self::key_done(limits, have, attributes, left, total);
                assert forall|rest: Seq<u8>| #[trigger] lands(r, rest, start.resume(b + rest)) by {
                    assert(lands(
                        r,
                        rest,
                        with_key(text_body(b + rest, b.len()), left as nat, total as nat, before, limits),
                    ));
                }
                r
            },
            Stage::ValueLen { key } => {
                let ghost k = key@;
                let r = Self::take_value_len(limits, key, have, attributes, left, total);
                assert forall|rest: Seq<u8>| #[trigger] lands(r, rest, start.resume(b + rest)) by {
                    assert(lands(
                        r,
                        rest,
                        with_value(
                            k,
                            text(b + rest, total as nat, limits),
                            left as nat,
                            total as nat,
                            before,
                            limits,
                        ),
                    ));
                }
                r
            },
            Stage::Value { key, len } => if have.len() < len {
                Ok(HeaderDecoder { limits, stage: Stage::Value { key, len }, have, attributes, left, total })
            } else {
                let ghost k = key@;
                let r = Self::value_done(limits, key, have, attributes, left, total);
                assert forall|rest: Seq<u8>| #[trigger] lands(r, rest, start.resume(b + rest)) by {
                    assert(lands(
                        r,
                        rest,
                        with_value(k, text_body(b + rest, b.len()), left as nat, total as nat, before, limits),
                    ));
                }
                r
            },
            Stage::Size => {
                let r = Self::take_size(limits, have, attributes, left, total);
                assert forall|rest: Seq<u8>| #[trigger] lands(r, rest, start.resume(b + rest)) by {
                    assert(lands(r, rest, content_size(b + rest, before, limits)));
                }
                r
            },
            Stage::Done { size } => {
                Ok(HeaderDecoder { limits, stage: Stage::Done { size }, have, attributes, left, total })
            },
        };
        assert forall|rest: Seq<u8>| #[trigger] lands(r, rest, start.outcome(chunk@ + rest)) by {
            assert(start.outcome(chunk@ + rest) == start.resume(b + rest));
            assert(lands(r, rest, start.resume(b + rest)));
        }
        r
    }

    /// Whether an end of the bytes here is one inside a key or value.
    pub fn is_in_text(&self) -> (inside_text: bool)
        requires
            self.missing() > 0,
        ensures
            self.outcome(Seq::empty()) == (Outcome::Refused {
                why: Refusal::Truncated { inside_text },
                rest: Seq::empty(),
            }),
    {
        proof {
            use_type_invariant(self);
            assert(self.have@ + Seq::<u8>::empty() =~= self.have@);
        }
        match &self.stage {
            Stage::Key { .. } | Stage::Value { .. } => true,
            _ => false,
        }
    }

    /// The bytes ended before the header did.
    pub fn end_of_input(&self) -> (e: Error)
        requires
            self.missing() > 0,
        ensures
            self.outcome(Seq::empty()) matches Outcome::Refused { why, rest } && why is Truncated && rest
                == Seq::<u8>::empty() && reports(e, why),
    {
        if self.is_in_text() {
            Error::Io(IoError::new(ErrorKind::UnexpectedEof, "attribute truncated"))
        } else {
            Error::Io(IoError::new(ErrorKind::UnexpectedEof, "failed to fill whole buffer"))
        }
    }

    /// What a complete header holds: the attributes and the declared content
    /// size.
    pub fn finish(self) -> (header: (Attributes, u64))
        requires
            self.missing() == 0,
        ensures
            forall|rest: Seq<u8>| #[trigger]
                self.outcome(rest) == (Outcome::Accepted { attributes: header.0@, size: header.1, rest }),
            comes_to(self, header.0@, header.1),
    {
        proof {
            use_type_invariant(&self);
            assert forall|rest: Seq<u8>| #[trigger] self.outcome(rest) == self.resume(rest) by {
                assert(self.have@ + rest =~= rest);
            }
        }
        match self.stage {
            Stage::Done { size } => (self.attributes, size),
            _ => (self.attributes, 0),
        }
    }
}

/// Whether two byte strings are the same.
pub(crate) fn same_bytes(a: &[u8], b: &[u8]) -> (same: bool)
    ensures
        same == (a@ == b@),
{
    if a.len() != b.len() {
        return false;
    }
    let mut i: usize = 0;
    while i < a.len()
        invariant
            i <= a@.len(),
            a@.len() == b@.len(),
            forall|j: int| 0 <= j < i ==> a@[j] == b@[j],
        decreases a@.len() - i,
    {
        if a[i] != b[i] {
            return false;
        }
        i = i + 1;
    }
    assert(a@ =~= b@);
    true
}

/// A key or value after its length.
spec fn declared_text(rest: Seq<u8>, len: nat, total: nat, limits: Limits) -> TextOutcome {
    match objection(len, total, limits) {
        Some(why) => TextOutcome::Stop { why, rest },
        None => text_body(rest, len),
    }
}

} // verus!
