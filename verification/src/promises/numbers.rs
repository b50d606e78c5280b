//! Numbers, as bytes and as text, and texts by their characters.

use vstd::prelude::*;
use vstd::arithmetic::div_mod::lemma_div_denominator;
use vstd::arithmetic::power::{lemma_pow0, lemma_pow1, lemma_pow_adds, lemma_pow_positive, pow};
use vstd::utf8::*;

use crate::format::{be_bytes, be_value, lemma_be_bytes};
use crate::format::{field_len_bytes, read_be, write_be, write_bytes, write_field_len, write_string};
use crate::text::{bytes_lt, decimal, digits_value, find_from};
use crate::text::{
    byte_list_text, chars_of, decimal_text, find, order, parse_number, range_matches, space, trimmed, Order,
};

verus! {

/// The digit of `n` that counts `base` to the power of `place`.
pub open spec fn digit_at(n: nat, base: nat, place: nat) -> int {
    (n as int / pow(base as int, place)) % (base as int)
}

/// The last `len` digits of `n` in base 256 as bytes, the most significant
/// first.
pub open spec fn big_endian(n: nat, len: nat) -> Seq<u8> {
    Seq::new(len, |i: int| digit_at(n, 256, (len - 1 - i) as nat) as u8)
}

/// Each byte times the power of 256 that its place stands for, added up from
/// byte `i` on.
pub open spec fn weighed(bytes: Seq<u8>, i: int) -> int
    decreases bytes.len() - i,
{
    if i < 0 || i >= bytes.len() {
        0
    } else {
        bytes[i] * pow(256, (bytes.len() - 1 - i) as nat) + weighed(bytes, i + 1)
    }
}

proof fn lemma_next_power(base: nat, place: nat)
    requires
        base > 0,
    ensures
        pow(base as int, place + 1) == base * pow(base as int, place),
        pow(base as int, place) > 0,
{
    lemma_pow1(base as int);
    lemma_pow_adds(base as int, 1, place);
    lemma_pow_positive(base as int, place);
}

proof fn lemma_next_digit(n: nat, base: nat, place: nat)
    requires
        base > 0,
    ensures
        digit_at(n, base, place + 1) == digit_at(n / base, base, place),
        digit_at(n, base, 0) == n % base,
{
    lemma_next_power(base, place);
    lemma_pow0(base as int);
    lemma_div_denominator(n as int, base as int, pow(base as int, place));
    assert(n as int / 1 == n as int);
}

/// The digits that are written are those of the number.
pub proof fn lemma_big_endian(n: nat, len: nat)
    ensures
        be_bytes(n, len) == big_endian(n, len),
    decreases len,
{
    lemma_be_bytes(n, len);
    if len > 0 {
        let less = (len - 1) as nat;
        lemma_big_endian(n / 256, less);
        assert forall|i: int| 0 <= i < len implies be_bytes(n, len)[i] == big_endian(n, len)[i] by {
            if i < less {
                lemma_next_digit(n, 256, (less - 1 - i) as nat);
                assert(be_bytes(n, len)[i] == be_bytes(n / 256, less)[i]);
                assert(be_bytes(n / 256, less)[i] == big_endian(n / 256, less)[i]);
                assert((less - 1 - i) as nat + 1 == (len - 1 - i) as nat);
            } else {
                lemma_next_digit(n, 256, 0);
                assert((len - 1 - i) as nat == 0);
            }
        }
    }
    assert(be_bytes(n, len) =~= big_endian(n, len));
}

proof fn lemma_weighed_push(bytes: Seq<u8>, i: int)
    requires
        bytes.len() > 0,
        0 <= i <= bytes.len(),
    ensures
        i < bytes.len() ==> weighed(bytes, i) == 256 * weighed(bytes.drop_last(), i) + bytes.last(),
        i == bytes.len() ==> weighed(bytes, i) == 0,
    decreases bytes.len() - i,
{
    if i < bytes.len() {
        let less = bytes.drop_last();
        lemma_weighed_push(bytes, i + 1);
        if i < less.len() {
            let place = (less.len() - 1 - i) as nat;
            lemma_next_power(256, place);
            assert(bytes[i] == less[i]);
            let p = pow(256, place);
            let b = bytes[i] as int;
            assert((bytes.len() - 1 - i) as nat == place + 1);
            assert(b * (256 * p) == 256 * (b * p)) by (nonlinear_arith);
            assert(i + 1 < bytes.len());
        } else {
            lemma_pow0(256);
            assert(weighed(less, i) == 0);
            assert((bytes.len() - 1 - i) as nat == 0);
            assert(bytes[i] * 1 == bytes[i]);
        }
    }
}

/// The number read is the sum of the bytes by their places.
pub proof fn lemma_weighed(bytes: Seq<u8>)
    ensures
        be_value(bytes) == weighed(bytes, 0),
    decreases bytes.len(),
{
    if bytes.len() > 0 {
        lemma_weighed(bytes.drop_last());
        lemma_weighed_push(bytes, 0);
    }
}

/// Writing a number appends its digits in base 256, so many as are asked for,
/// the most significant first: byte `i` of `n` is the number divided by 256 to
/// the power of `n - 1 - i`, and of that the remainder by 256. What was in the
/// buffer stays.
pub proof fn law_numbers_are_written_in_base_256(buf: &mut Vec<u8>, value: u64, n: usize)
    requires
        call_ensures(write_be, (buf, value, n), ()),
    ensures
        final(buf)@.len() == old(buf)@.len() + n,
        forall|i: int| 0 <= i < old(buf)@.len() ==> final(buf)@[i] == old(buf)@[i],
        forall|i: int|
            0 <= i < n ==> (#[trigger] final(buf)@[old(buf)@.len() + i]) as int == (value as int / pow(
                256,
                (n - 1 - i) as nat,
            )) % 256,
{
    lemma_big_endian(value as nat, n as nat);
    let digits = big_endian(value as nat, n as nat);
    assert forall|i: int| 0 <= i < n implies (#[trigger] final(buf)@[old(buf)@.len() + i]) as int == (value as int
        / pow(256, (n - 1 - i) as nat)) % 256 by {
        assert(final(buf)@[old(buf)@.len() + i] == digits[i]);
    }
}

/// Reading a number adds up each byte times 256 to the power of the number of
/// bytes after it.
pub proof fn law_numbers_are_read_in_base_256(bytes: &[u8], value: u64)
    requires
        call_ensures(read_be, (bytes,), value),
    ensures
        value == weighed(bytes@, 0),
{
    lemma_weighed(bytes@);
}

/// The bytes before a key, a value or the attributes: the number in two bytes
/// below 65535, and from there on two bytes 255 and the number in four.
pub open spec fn length_prefix(n: nat) -> Seq<u8> {
    if n < 65535 {
        big_endian(n, 2)
    } else {
        seq![255u8, 255u8] + big_endian(n, 4)
    }
}

/// A text with its length in bytes before it.
pub open spec fn prefixed(text: Seq<char>) -> Seq<u8> {
    length_prefix(encode_utf8(text).len()) + encode_utf8(text)
}

pub proof fn lemma_length_prefix(n: nat)
    ensures
        crate::format::field_len_wire(n) == length_prefix(n),
        length_prefix(n).len() == if n < 65535 { 2nat } else { 6nat },
{
    lemma_big_endian(n, 2);
    lemma_big_endian(n, 4);
}

/// A field length is appended in its short form below 65535 and in its long
/// form from there on.
pub proof fn law_field_lengths_are_written_in_two_forms(buf: &mut Vec<u8>, len: usize)
    requires
        call_ensures(write_field_len, (buf, len), ()),
    ensures
        final(buf)@ == old(buf)@ + length_prefix(len as nat),
{
    lemma_length_prefix(len as nat);
}

/// A field length takes as many bytes as are said beforehand.
pub proof fn law_the_length_of_a_field_length(len: usize, n: usize)
    requires
        call_ensures(field_len_bytes, (len,), n),
    ensures
        n == length_prefix(len as nat).len(),
        n == if len < 65535 { 2int } else { 6int },
{
    lemma_length_prefix(len as nat);
}

/// A text is appended as the number of its UTF-8 bytes and then those bytes.
pub proof fn law_texts_are_written_after_their_length(buf: &mut Vec<u8>, value: &str)
    requires
        call_ensures(write_string, (buf, value), ()),
    ensures
        final(buf)@ == old(buf)@ + prefixed(value@),
{
    lemma_length_prefix(encode_utf8(value@).len());
}

/// Bytes are appended as they are.
pub proof fn law_bytes_are_written_as_they_are(buf: &mut Vec<u8>, bytes: &[u8])
    requires
        call_ensures(write_bytes, (buf, bytes), ()),
    ensures
        final(buf)@.len() == old(buf)@.len() + bytes@.len(),
        forall|i: int| 0 <= i < old(buf)@.len() ==> final(buf)@[i] == old(buf)@[i],
        forall|i: int| 0 <= i < bytes@.len() ==> #[trigger] final(buf)@[old(buf)@.len() + i] == bytes@[i],
{
}

/// `text` is `n` in base ten: one digit for each place, the most significant
/// first, and no zero in front of another digit.
pub open spec fn in_decimal(text: Seq<char>, n: nat) -> bool {
    &&& text.len() > 0
    &&& n < pow(10, text.len())
    &&& text.len() > 1 ==> text[0] != '0'
    &&& forall|i: int|
        0 <= i < text.len() ==> (#[trigger] text[i]) as int == 48 + (n as int / pow(10, (text.len() - 1 - i) as nat)) % 10
}

pub proof fn lemma_decimal(n: nat)
    ensures
        in_decimal(decimal(n), n),
        n > 0 ==> decimal(n)[0] != '0',
    decreases n,
{
    let text = decimal(n);
    if n < 10 {
        lemma_pow0(10);
        lemma_pow1(10);
        lemma_next_digit(n, 10, 0);
        assert(text.len() == 1);
        assert(text[0] as int == 48 + n);
        assert(digit_at(n, 10, 0) == n);
    } else {
        let more = n / 10;
        lemma_decimal(more);
        let front = decimal(more);
        assert(text =~= front.push(crate::text::digit(n % 10)));
        lemma_next_power(10, front.len());
        assert(n < 10 * (more + 1));
        assert(n < pow(10, text.len()));
        assert(text[0] == front[0]);
        assert forall|i: int| 0 <= i < text.len() implies (#[trigger] text[i]) as int == 48 + digit_at(
            n,
            10,
            (text.len() - 1 - i) as nat,
        ) by {
            if i < front.len() {
                lemma_next_digit(n, 10, (front.len() - 1 - i) as nat);
                assert(text[i] == front[i]);
                assert((front.len() - 1 - i) as nat + 1 == (text.len() - 1 - i) as nat);
                assert(front[i] as int == 48 + digit_at(more, 10, (front.len() - 1 - i) as nat));
            } else {
                lemma_next_digit(n, 10, 0);
                assert((text.len() - 1 - i) as nat == 0);
            }
        }
    }
}

/// A number is printed in base ten, without leading zeros.
pub proof fn law_numbers_are_printed_in_decimal(n: u64, text: String)
    requires
        call_ensures(decimal_text, (n,), text),
    ensures
        in_decimal(text@, n as nat),
{
    lemma_decimal(n as nat);
}

/// Each digit times the power of ten that its place stands for, added up from
/// digit `i` on.
pub open spec fn ten_weighed(digits: Seq<char>, i: int) -> int
    decreases digits.len() - i,
{
    if i < 0 || i >= digits.len() {
        0
    } else {
        (digits[i] as int - 48) * pow(10, (digits.len() - 1 - i) as nat) + ten_weighed(digits, i + 1)
    }
}

proof fn lemma_ten_weighed_push(digits: Seq<char>, i: int)
    requires
        digits.len() > 0,
        0 <= i <= digits.len(),
    ensures
        i < digits.len() ==> ten_weighed(digits, i) == 10 * ten_weighed(digits.drop_last(), i) + (digits.last() as int - 48),
        i == digits.len() ==> ten_weighed(digits, i) == 0,
    decreases digits.len() - i,
{
    if i < digits.len() {
        let less = digits.drop_last();
        lemma_ten_weighed_push(digits, i + 1);
        if i < less.len() {
            let place = (less.len() - 1 - i) as nat;
            lemma_next_power(10, place);
            assert(digits[i] == less[i]);
            let p = pow(10, place);
            let b = digits[i] as int - 48;
            assert((digits.len() - 1 - i) as nat == place + 1);
            assert(b * (10 * p) == 10 * (b * p)) by (nonlinear_arith);
            assert(i + 1 < digits.len());
        } else {
            lemma_pow0(10);
            assert(ten_weighed(less, i) == 0);
            assert((digits.len() - 1 - i) as nat == 0);
            let b = digits[i] as int - 48;
            assert(b * 1 == b);
        }
    }
}

/// Only the digits from 0 to 9, and at least one.
pub open spec fn numeral(digits: Seq<char>) -> bool {
    &&& digits.len() > 0
    &&& forall|i: int| 0 <= i < digits.len() ==> 48 <= (#[trigger] digits[i]) as int <= 57
}

pub proof fn lemma_ten_weighed(digits: Seq<char>)
    requires
        forall|i: int| 0 <= i < digits.len() ==> 48 <= (#[trigger] digits[i]) as int <= 57,
    ensures
        digits_value(digits) == ten_weighed(digits, 0),
    decreases digits.len(),
{
    if digits.len() > 0 {
        let less = digits.drop_last();
        assert forall|i: int| 0 <= i < less.len() implies 48 <= (#[trigger] less[i]) as int <= 57 by {
            assert(digits[i] == less[i]);
        }
        lemma_ten_weighed(less);
        lemma_ten_weighed_push(digits, 0);
        assert(48 <= digits[digits.len() - 1] as int <= 57);
    }
}

/// A text is a number exactly where it is digits, with a plus sign in front or
/// not, and the number is the sum of the digits by their places. One above what
/// 64 bits hold is none.
pub proof fn law_numbers_are_read_in_decimal(text: &str, n: Option<u64>)
    requires
        call_ensures(parse_number, (text,), n),
    ensures
        numeral(text@) && ten_weighed(text@, 0) <= u64::MAX ==> n is Some && n->0 == ten_weighed(text@, 0),
        text@.len() > 0 && text@[0] == '+' && numeral(text@.skip(1)) && ten_weighed(text@.skip(1), 0) <= u64::MAX ==> n is Some
            && n->0 == ten_weighed(text@.skip(1), 0),
        n matches Some(value) ==> {
            ||| numeral(text@) && value == ten_weighed(text@, 0)
            ||| text@.len() > 0 && text@[0] == '+' && numeral(text@.skip(1)) && value == ten_weighed(text@.skip(1), 0)
        },
{
    lemma_number(text@);
}

pub proof fn lemma_number(text: Seq<char>)
    ensures
        ({
            let n = crate::text::whole_number(text);
            &&& numeral(text) && ten_weighed(text, 0) <= u64::MAX ==> n is Some && n->0 == ten_weighed(text, 0)
            &&& text.len() > 0 && text[0] == '+' && numeral(text.skip(1)) && ten_weighed(text.skip(1), 0) <= u64::MAX ==> n is Some
                && n->0 == ten_weighed(text.skip(1), 0)
            &&& n matches Some(value) ==> {
                ||| numeral(text) && value == ten_weighed(text, 0)
                ||| text.len() > 0 && text[0] == '+' && numeral(text.skip(1)) && value == ten_weighed(text.skip(1), 0)
            }
        }),
{
    let n = crate::text::whole_number(text);
    let digits = crate::text::unsigned(text);
    if text.len() > 0 && text[0] == '+' {
        assert(!numeral(text));
        assert(digits == text.skip(1));
    } else {
        assert(digits == text);
    }
    if numeral(digits) {
        lemma_ten_weighed(digits);
        assert(crate::text::all_digits(digits));
    }
    if n is Some {
        assert(crate::text::all_digits(digits));
        assert(numeral(digits)) by {
            assert forall|i: int| 0 <= i < digits.len() implies 48 <= (#[trigger] digits[i]) as int <= 57 by {
                assert(crate::text::is_digit(digits[i]));
                char_u32_cast(digits[i], digits[i] as u32);
            }
        }
    }
}

/// A list of bytes is in brackets, with a comma and a space between two
/// numbers: a byte more adds these and its number before the closing bracket.
pub proof fn law_a_list_of_bytes_grows_by_its_last(fewer: &[u8], fewer_text: String, bytes: &[u8], text: String)
    requires
        call_ensures(byte_list_text, (fewer,), fewer_text),
        call_ensures(byte_list_text, (bytes,), text),
    ensures
        bytes@.len() == 0 ==> text@ == seq!['[', ']'],
        bytes@.len() == 1 ==> exists|d: Seq<char>| #[trigger] in_decimal(d, bytes@[0] as nat) && text@ == seq!['['] + d + seq![']'],
        bytes@.len() > 1 && fewer@ == bytes@.drop_last() ==> exists|d: Seq<char>| #[trigger]
            in_decimal(d, bytes@.last() as nat) && text@ == fewer_text@.drop_last() + seq![',', ' '] + d + seq![']'],
{
    if bytes@.len() == 0 {
        assert(text@ =~= seq!['[', ']']);
    } else {
        let d = decimal(bytes@.last() as nat);
        lemma_decimal(bytes@.last() as nat);
        if bytes@.len() > 1 && fewer@ == bytes@.drop_last() {
            assert(text@ =~= fewer_text@.drop_last() + seq![',', ' '] + d + seq![']']);
        }
    }
}

/// The characters of a string, each in its place.
pub proof fn law_characters_keep_their_places(s: &str, chars: Vec<char>)
    requires
        call_ensures(chars_of, (s,), chars),
    ensures
        chars@.len() == s@.len(),
        forall|i: int| 0 <= i < s@.len() ==> #[trigger] chars@[i] == s@[i],
{
}

pub proof fn lemma_find(s: Seq<char>, c: char, i: int)
    requires
        0 <= i,
    ensures
        match find_from(s, c, i) {
            Some(at) => i <= at < s.len() && s[at] == c && forall|j: int| i <= j < at ==> #[trigger] s[j] != c,
            None => forall|j: int| i <= j < s.len() ==> #[trigger] s[j] != c,
        },
    decreases s.len() - i,
{
    if i < s.len() && s[i] != c {
        lemma_find(s, c, i + 1);
    }
}

/// A character is found where it first stands, and not found only where it is
/// nowhere.
pub proof fn law_the_first_place_is_found(s: &Vec<char>, c: char, at: Option<usize>)
    requires
        call_ensures(find, (s, c), at),
    ensures
        match at {
            Some(i) => i < s@.len() && s@[i as int] == c && forall|j: int| 0 <= j < i ==> #[trigger] s@[j] != c,
            None => forall|j: int| 0 <= j < s@.len() ==> #[trigger] s@[j] != c,
        },
{
    lemma_find(s@, c, 0);
}

/// The code points of white space.
pub open spec fn blanks() -> Seq<int> {
    seq![
        9, 10, 11, 12, 13, 32, 133, 160, 5760, 8192, 8193, 8194, 8195, 8196, 8197, 8198, 8199, 8200, 8201, 8202, 8232,
        8233, 8239, 8287, 12288,
    ]
}

/// White space is what Unicode calls so, and nothing else.
pub proof fn law_white_space_is_that_of_unicode(c: char, yes: bool)
    requires
        call_ensures(space, (c,), yes),
    ensures
        yes <==> exists|i: int| 0 <= i < blanks().len() && #[trigger] blanks()[i] == c as int,
{
    let b = blanks();
    let n = c as int;
    assert(b[0] == 9 && b[1] == 10 && b[2] == 11 && b[3] == 12 && b[4] == 13 && b[5] == 32 && b[6] == 133 && b[7] == 160 && b[8]
        == 5760 && b[9] == 8192 && b[10] == 8193 && b[11] == 8194 && b[12] == 8195 && b[13] == 8196 && b[14] == 8197 && b[15]
        == 8198 && b[16] == 8199 && b[17] == 8200 && b[18] == 8201 && b[19] == 8202 && b[20] == 8232 && b[21] == 8233 && b[22]
        == 8239 && b[23] == 8287 && b[24] == 12288);
}

/// What is left between white space starts and ends with something else, and
/// nothing but white space was taken away.
pub proof fn law_only_white_space_is_trimmed(s: &Vec<char>, end: usize, range: (usize, usize))
    requires
        end <= s@.len(),
        call_ensures(trimmed, (s, end), range),
    ensures
        range.0 <= range.1 <= end,
        exists|from: int, to: int| #[trigger]
            s@.subrange(from, to) == s@.subrange(range.0 as int, range.1 as int) && stripped(s@, from, to, end as int),
{
    let whole = s@.take(end as int);
    let (from, to) = lemma_trimmed(whole);
    assert(whole.subrange(from, to) =~= s@.subrange(from, to));
    assert(stripped(s@, from, to, end as int)) by {
        assert forall|i: int| 0 <= i < from implies blank(#[trigger] s@[i]) by {
            assert(whole[i] == s@[i]);
        }
        assert forall|i: int| to <= i < end implies blank(#[trigger] s@[i]) by {
            assert(whole[i] == s@[i]);
        }
    }
}

/// What is left of a text without the white space around it.
pub proof fn lemma_trimmed(s: Seq<char>) -> (range: (int, int))
    ensures
        stripped(s, range.0, range.1, s.len() as int),
        crate::text::trim_end(crate::text::trim_start(s)) == s.subrange(range.0, range.1),
{
    let from = lemma_trim_start(s);
    let start = s.skip(from);
    let kept = lemma_trim_end(start);
    let to = from + kept;
    assert(start.take(kept) =~= s.subrange(from, to));
    assert forall|i: int| to <= i < s.len() implies blank(#[trigger] s[i]) by {
        assert(start[i - from] == s[i]);
    }
    if from < to {
        assert(start[0] == s[from]);
        assert(start[kept - 1] == s[to - 1]);
    }
    (from, to)
}

/// A character that counts as white space.
pub open spec fn blank(c: char) -> bool {
    exists|i: int| 0 <= i < blanks().len() && #[trigger] blanks()[i] == c as int
}

/// Up to `end`, everything outside of `from` and `to` is white space, and what
/// stands at either end between them is not.
pub open spec fn stripped(s: Seq<char>, from: int, to: int, end: int) -> bool {
    &&& 0 <= from <= to <= end <= s.len()
    &&& forall|i: int| 0 <= i < from ==> blank(#[trigger] s[i])
    &&& forall|i: int| to <= i < end ==> blank(#[trigger] s[i])
    &&& from < to ==> !blank(s[from]) && !blank(s[to - 1])
}

proof fn lemma_blank(c: char)
    ensures
        crate::text::is_space(c) == blank(c),
{
    let b = blanks();
    assert(b[0] == 9 && b[1] == 10 && b[2] == 11 && b[3] == 12 && b[4] == 13 && b[5] == 32 && b[6] == 133 && b[7] == 160 && b[8]
        == 5760 && b[9] == 8192 && b[10] == 8193 && b[11] == 8194 && b[12] == 8195 && b[13] == 8196 && b[14] == 8197 && b[15]
        == 8198 && b[16] == 8199 && b[17] == 8200 && b[18] == 8201 && b[19] == 8202 && b[20] == 8232 && b[21] == 8233 && b[22]
        == 8239 && b[23] == 8287 && b[24] == 12288);
}

proof fn lemma_trim_start(s: Seq<char>) -> (from: int)
    ensures
        0 <= from <= s.len(),
        crate::text::trim_start(s) == s.skip(from),
        forall|i: int| 0 <= i < from ==> blank(#[trigger] s[i]),
        from < s.len() ==> !blank(s[from]),
    decreases s.len(),
{
    if s.len() > 0 {
        lemma_blank(s[0]);
    }
    if s.len() > 0 && crate::text::is_space(s[0]) {
        let more = lemma_trim_start(s.drop_first());
        assert(s.drop_first().skip(more) =~= s.skip(more + 1));
        assert forall|i: int| 0 <= i < more + 1 implies blank(#[trigger] s[i]) by {
            if i > 0 {
                assert(s.drop_first()[i - 1] == s[i]);
            }
        }
        if more + 1 < s.len() {
            assert(s.drop_first()[more] == s[more + 1]);
        }
        more + 1
    } else {
        assert(s.skip(0) =~= s);
        0
    }
}

proof fn lemma_trim_end(s: Seq<char>) -> (to: int)
    ensures
        0 <= to <= s.len(),
        crate::text::trim_end(s) == s.take(to),
        forall|i: int| to <= i < s.len() ==> blank(#[trigger] s[i]),
        to > 0 ==> !blank(s[to - 1]),
    decreases s.len(),
{
    if s.len() > 0 {
        lemma_blank(s.last());
    }
    if s.len() > 0 && crate::text::is_space(s.last()) {
        let less = s.drop_last();
        let to = lemma_trim_end(less);
        assert(less.take(to) =~= s.take(to));
        assert forall|i: int| to <= i < s.len() implies blank(#[trigger] s[i]) by {
            if i < less.len() {
                assert(less[i] == s[i]);
            }
        }
        if to > 0 {
            assert(less[to - 1] == s[to - 1]);
        }
        to
    } else {
        assert(s.take(s.len() as int) =~= s);
        s.len() as int
    }
}

/// The same character, or the same letter from A to Z in the other case.
pub open spec fn same_letter(a: char, b: char) -> bool {
    ||| a == b
    ||| 65 <= a as int <= 90 && b as int == a as int + 32
    ||| 65 <= b as int <= 90 && a as int == b as int + 32
}

/// The same text, but for the case of letters from A to Z.
pub open spec fn same_letters(a: Seq<char>, b: Seq<char>) -> bool {
    &&& a.len() == b.len()
    &&& forall|i: int| 0 <= i < a.len() ==> same_letter(#[trigger] a[i], b[i])
}

pub proof fn lemma_same_letters(a: Seq<char>, b: Seq<char>)
    ensures
        crate::text::same_but_case(a, b) == same_letters(a, b),
{
    if crate::text::same_but_case(a, b) {
        assert forall|i: int| 0 <= i < a.len() implies same_letter(#[trigger] a[i], b[i]) by {
            assert(crate::text::lower_code(a[i]) == crate::text::lower_code(b[i]));
            char_u32_cast(a[i], a[i] as u32);
            char_u32_cast(b[i], b[i] as u32);
        }
    }
    if same_letters(a, b) {
        assert forall|i: int| 0 <= i < a.len() implies crate::text::lower_code(#[trigger] a[i]) == crate::text::lower_code(
            b[i],
        ) by {
            assert(same_letter(a[i], b[i]));
        }
    }
}

/// A part of a text matches another one exactly where they are the same but
/// for the case of letters from A to Z.
pub proof fn law_matching_ignores_case_and_nothing_else(s: &Vec<char>, from: usize, to: usize, text: &Vec<char>, yes: bool)
    requires
        from <= to <= s@.len(),
        call_ensures(range_matches, (s, from, to, text), yes),
    ensures
        yes <==> same_letters(s@.subrange(from as int, to as int), text@),
{
    lemma_same_letters(s@.subrange(from as int, to as int), text@);
}

/// `a` comes before `b`: they agree up to some place where `a` ends or has the
/// smaller byte.
pub open spec fn comes_before(a: Seq<u8>, b: Seq<u8>) -> bool {
    exists|n: int| #[trigger] parts_at(a, b, n)
}

/// `a` and `b` agree in their first `n` bytes, and there `a` ends or has the
/// smaller byte.
pub open spec fn parts_at(a: Seq<u8>, b: Seq<u8>, n: int) -> bool {
    &&& 0 <= n <= a.len()
    &&& n < b.len()
    &&& forall|i: int| 0 <= i < n ==> #[trigger] a[i] == b[i]
    &&& n < a.len() ==> a[n] < b[n]
}

pub proof fn lemma_comes_before(a: Seq<u8>, b: Seq<u8>)
    ensures
        bytes_lt(a, b) ==> comes_before(a, b),
        comes_before(a, b) ==> bytes_lt(a, b),
    decreases a.len(),
{
    if a.len() > 0 && b.len() > 0 && a[0] == b[0] {
        let a1 = a.drop_first();
        let b1 = b.drop_first();
        lemma_comes_before(a1, b1);
        if bytes_lt(a, b) {
            let n = choose|n: int| #[trigger] parts_at(a1, b1, n);
            assert(parts_at(a, b, n + 1)) by {
                assert forall|i: int| 0 <= i < n + 1 implies #[trigger] a[i] == b[i] by {
                    if i > 0 {
                        assert(a1[i - 1] == b1[i - 1]);
                    }
                }
            }
        }
        if comes_before(a, b) {
            let n = choose|n: int| #[trigger] parts_at(a, b, n);
            assert(parts_at(a1, b1, n - 1)) by {
                assert forall|i: int| 0 <= i < n - 1 implies #[trigger] a1[i] == b1[i] by {
                    assert(a[i + 1] == b[i + 1]);
                }
            }
        }
    } else {
        if bytes_lt(a, b) {
            assert(parts_at(a, b, 0));
        }
        if comes_before(a, b) {
            let n = choose|n: int| #[trigger] parts_at(a, b, n);
            if n > 0 {
                assert(a[0] == b[0]);
            }
        }
    }
}

/// Two texts compare as their UTF-8 bytes do at the first place where they
/// part.
pub proof fn law_texts_compare_by_their_bytes(a: &str, b: &str, o: Order)
    requires
        call_ensures(order, (a, b), o),
    ensures
        o == Order::Equal <==> a@ == b@,
        o == Order::Less <==> comes_before(encode_utf8(a@), encode_utf8(b@)),
        o == Order::Greater <==> comes_before(encode_utf8(b@), encode_utf8(a@)),
{
    lemma_comes_before(encode_utf8(a@), encode_utf8(b@));
    lemma_comes_before(encode_utf8(b@), encode_utf8(a@));
}

} // verus!
