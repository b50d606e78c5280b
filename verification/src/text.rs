//! Strings as the wire sees them: UTF-8 bytes, their order, and numbers in
//! decimal.

use vstd::prelude::*;
use vstd::string::*;
use vstd::utf8::*;

verus! {

/// Which of two strings comes first.
#[derive(Debug, Clone, Copy, PartialEq, Eq, Structural)]
pub enum Order {
    Less,
    Equal,
    Greater,
}

/// The lexicographic order of byte strings.
pub open spec fn bytes_lt(a: Seq<u8>, b: Seq<u8>) -> bool
    decreases a.len(),
{
    if b.len() == 0 {
        false
    } else if a.len() == 0 {
        true
    } else if a[0] != b[0] {
        a[0] < b[0]
    } else {
        bytes_lt(a.drop_first(), b.drop_first())
    }
}

/// The order attribute keys are kept and written in: that of their UTF-8
/// bytes.
pub open spec fn key_lt(a: Seq<char>, b: Seq<char>) -> bool {
    bytes_lt(encode_utf8(a), encode_utf8(b))
}

pub proof fn lemma_bytes_lt_irreflexive(a: Seq<u8>)
    ensures
        !bytes_lt(a, a),
    decreases a.len(),
{
    if a.len() > 0 {
        lemma_bytes_lt_irreflexive(a.drop_first());
    }
}

pub proof fn lemma_bytes_lt_transitive(a: Seq<u8>, b: Seq<u8>, c: Seq<u8>)
    requires
        bytes_lt(a, b),
        bytes_lt(b, c),
    ensures
        bytes_lt(a, c),
    decreases a.len(),
{
    if a.len() > 0 && a[0] == b[0] && b[0] == c[0] {
        lemma_bytes_lt_transitive(a.drop_first(), b.drop_first(), c.drop_first());
    }
}

pub proof fn lemma_bytes_lt_total(a: Seq<u8>, b: Seq<u8>)
    ensures
        a == b || bytes_lt(a, b) || bytes_lt(b, a),
    decreases a.len(),
{
    if a.len() > 0 && b.len() > 0 {
        if a[0] == b[0] {
            lemma_bytes_lt_total(a.drop_first(), b.drop_first());
            if a.drop_first() == b.drop_first() {
                assert(a =~= seq![a[0]] + a.drop_first());
                assert(b =~= seq![b[0]] + b.drop_first());
            }
        }
    } else if a.len() == 0 && b.len() == 0 {
        assert(a =~= b);
    }
}

/// Two strings with the same UTF-8 bytes are the same string.
pub proof fn lemma_utf8_injective(a: Seq<char>, b: Seq<char>)
    requires
        encode_utf8(a) == encode_utf8(b),
    ensures
        a == b,
{
    encode_utf8_decode_utf8(a);
    encode_utf8_decode_utf8(b);
}

/// `key_lt` is a strict total order.
pub proof fn lemma_key_order(a: Seq<char>, b: Seq<char>, c: Seq<char>)
    ensures
        !key_lt(a, a),
        a == b || key_lt(a, b) || key_lt(b, a),
        key_lt(a, b) && key_lt(b, c) ==> key_lt(a, c),
        key_lt(a, b) ==> !key_lt(b, a),
{
    lemma_bytes_lt_irreflexive(encode_utf8(a));
    lemma_bytes_lt_total(encode_utf8(a), encode_utf8(b));
    if encode_utf8(a) == encode_utf8(b) {
        lemma_utf8_injective(a, b);
    }
    if key_lt(a, b) && key_lt(b, c) {
        lemma_bytes_lt_transitive(encode_utf8(a), encode_utf8(b), encode_utf8(c));
    }
    if key_lt(a, b) && key_lt(b, a) {
        lemma_bytes_lt_transitive(encode_utf8(a), encode_utf8(b), encode_utf8(a));
    }
}

/// Compare two strings by their UTF-8 bytes.
pub fn order(a: &str, b: &str) -> (o: Order)
    ensures
        o == Order::Equal <==> a@ == b@,
        o == Order::Less <==> key_lt(a@, b@),
        o == Order::Greater <==> key_lt(b@, a@),
{
    proof {
        lemma_key_order(a@, b@, a@);
        lemma_key_order(b@, a@, a@);
    }
    let left = a.as_bytes();
    let right = b.as_bytes();
    let mut i: usize = 0;
    assert(left@.skip(0) =~= left@);
    assert(right@.skip(0) =~= right@);
    while i < left.len() && i < right.len() && left[i] == right[i]
        invariant
            i <= left@.len(),
            i <= right@.len(),
            left@.subrange(0, i as int) == right@.subrange(0, i as int),
            bytes_lt(left@, right@) == bytes_lt(left@.skip(i as int), right@.skip(i as int)),
            bytes_lt(right@, left@) == bytes_lt(right@.skip(i as int), left@.skip(i as int)),
        decreases left@.len() - i,
    {
        proof {
            assert(left@.skip(i as int).drop_first() =~= left@.skip(i + 1));
            assert(right@.skip(i as int).drop_first() =~= right@.skip(i + 1));
            assert(left@.subrange(0, i + 1) =~= left@.subrange(0, i as int).push(left@[i as int]));
            assert(right@.subrange(0, i + 1) =~= right@.subrange(0, i as int).push(right@[i as int]));
        }
        i = i + 1;
    }
    if i == left.len() {
        if i == right.len() {
            proof {
                assert(left@ =~= left@.subrange(0, i as int));
                assert(right@ =~= right@.subrange(0, i as int));
                lemma_utf8_injective(a@, b@);
            }
            Order::Equal
        } else {
            Order::Less
        }
    } else if i == right.len() {
        Order::Greater
    } else if left[i] < right[i] {
        Order::Less
    } else {
        Order::Greater
    }
}

/// A decimal digit.
pub open spec fn digit(d: nat) -> char {
    (48 + d) as char
}

/// A number in decimal, without leading zeros.
pub open spec fn decimal(n: nat) -> Seq<char>
    decreases n,
{
    if n < 10 {
        seq![digit(n)]
    } else {
        decimal(n / 10).push(digit(n % 10))
    }
}

fn digit_text(d: u64) -> (text: &'static str)
    requires
        d < 10,
    ensures
        text@ == seq![digit(d as nat)],
{
    proof {
        reveal_strlit("0");
        reveal_strlit("1");
        reveal_strlit("2");
        reveal_strlit("3");
        reveal_strlit("4");
        reveal_strlit("5");
        reveal_strlit("6");
        reveal_strlit("7");
        reveal_strlit("8");
        reveal_strlit("9");
    }
    let text = match d {
        0 => "0",
        1 => "1",
        2 => "2",
        3 => "3",
        4 => "4",
        5 => "5",
        6 => "6",
        7 => "7",
        8 => "8",
        _ => "9",
    };
    assert(text@ =~= seq![digit(d as nat)]);
    text
}

/// `n` in decimal.
pub fn decimal_text(n: u64) -> (text: String)
    ensures
        text@ == decimal(n as nat),
    decreases n,
{
    if n < 10 {
        digit_text(n).to_owned()
    } else {
        let mut text = decimal_text(n / 10);
        text.append(digit_text(n % 10));
        assert(text@ =~= decimal(n as nat));
        text
    }
}

/// Bytes as a debugging aid prints them: `[1, 2, 3]`.
pub open spec fn byte_list(bytes: Seq<u8>) -> Seq<char> {
    seq!['['] + byte_items(bytes) + seq![']']
}

/// The numbers of `bytes`, with a comma and a space between them.
pub open spec fn byte_items(bytes: Seq<u8>) -> Seq<char>
    decreases bytes.len(),
{
    if bytes.len() == 0 {
        Seq::empty()
    } else if bytes.len() == 1 {
        decimal(bytes[0] as nat)
    } else {
        byte_items(bytes.drop_last()) + seq![',', ' '] + decimal(bytes.last() as nat)
    }
}

/// `bytes` as a list of numbers.
pub fn byte_list_text(bytes: &[u8]) -> (text: String)
    ensures
        text@ == byte_list(bytes@),
{
    proof {
        reveal_strlit("[");
        reveal_strlit("]");
        reveal_strlit(", ");
    }
    let mut text = "[".to_owned();
    let mut i: usize = 0;
    assert(bytes@.take(0) =~= Seq::empty());
    assert(text@ =~= seq!['['] + byte_items(bytes@.take(0)));
    while i < bytes.len()
        invariant
            i <= bytes@.len(),
            text@ == seq!['['] + byte_items(bytes@.take(i as int)),
            ", "@ == seq![',', ' '],
        decreases bytes@.len() - i,
    {
        if i > 0 {
            text.append(", ");
        }
        let number = decimal_text(bytes[i] as u64);
        text.append(number.as_str());
        proof {
            let next = bytes@.take(i + 1);
            assert(next.drop_last() =~= bytes@.take(i as int));
            assert(text@ =~= seq!['['] + byte_items(next));
        }
        i = i + 1;
    }
    assert(bytes@.take(i as int) =~= bytes@);
    text.append("]");
    assert(text@ =~= byte_list(bytes@));
    text
}

/// Bytes that are not UTF-8, and what is wrong with them.
#[derive(Debug, PartialEq, Eq)]
pub struct InvalidUtf8 {
    /// The bytes.
    pub bytes: Vec<u8>,
    /// What is wrong with them, in words.
    pub reason: String,
}

/// What the standard library says of bytes that are not UTF-8.
pub uninterp spec fn utf8_complaint(bytes: Seq<u8>) -> Seq<char>;

/// The string that `bytes` encode.
///
/// Calls [`String::from_utf8`]. It is taken on trust that it accepts exactly
/// the valid UTF-8 byte strings, that the string it makes of one has those
/// very bytes, and that on any other it hands the bytes back with a complaint
/// that depends on nothing but them.
#[verifier::external_body]
pub(crate) fn string_from_utf8(bytes: Vec<u8>) -> (text: Result<String, InvalidUtf8>)
    ensures
        match text {
            Ok(s) => valid_utf8(bytes@) && encode_utf8(s@) == bytes@,
            Err(invalid) => {
                &&& !valid_utf8(bytes@)
                &&& invalid.bytes@ == bytes@
                &&& invalid.reason@ == utf8_complaint(bytes@)
            },
        },
{
    String::from_utf8(bytes).map_err(
        |err| InvalidUtf8 { reason: err.to_string(), bytes: err.into_bytes() },
    )
}

/// The characters of a string.
pub fn chars_of(s: &str) -> (chars: Vec<char>)
    ensures
        chars@ == s@,
{
    let mut chars: Vec<char> = Vec::new();
    for c in it: s.chars()
        invariant
            chars@.len() == it.index(),
            forall|i: int| 0 <= i < chars@.len() ==> chars@[i] == it.seq()[i],
            it.seq() == s@,
    {
        chars.push(c);
    }
    assert(chars@ =~= s@);
    chars
}

/// Where `c` first stands in `s`, looking from `i` on.
pub open spec fn find_from(s: Seq<char>, c: char, i: int) -> Option<int>
    decreases s.len() - i,
{
    if i < 0 || i >= s.len() {
        None
    } else if s[i] == c {
        Some(i)
    } else {
        find_from(s, c, i + 1)
    }
}

/// Where `c` first stands in `s`.
pub fn find(s: &Vec<char>, c: char) -> (at: Option<usize>)
    ensures
        match at {
            Some(i) => find_from(s@, c, 0) == Some(i as int) && i < s@.len() && s@[i as int] == c,
            None => find_from(s@, c, 0) is None,
        },
{
    let mut i: usize = 0;
    while i < s.len()
        invariant
            i <= s@.len(),
            find_from(s@, c, 0) == find_from(s@, c, i as int),
        decreases s@.len() - i,
    {
        if s[i] == c {
            return Some(i);
        }
        i = i + 1;
    }
    None
}

/// A white-space character.
pub open spec fn is_space(c: char) -> bool {
    let n = c as u32;
    ||| 0x9 <= n <= 0xD
    ||| n == 0x20
    ||| n == 0x85
    ||| n == 0xA0
    ||| n == 0x1680
    ||| 0x2000 <= n <= 0x200A
    ||| n == 0x2028
    ||| n == 0x2029
    ||| n == 0x202F
    ||| n == 0x205F
    ||| n == 0x3000
}

/// Whether `c` is a white-space character.
pub fn space(c: char) -> (yes: bool)
    ensures
        yes == is_space(c),
{
    let n: u32 = c as u32;
    (0x9 <= n && n <= 0xD) || n == 0x20 || n == 0x85 || n == 0xA0 || n == 0x1680 || (0x2000 <= n && n <= 0x200A) || n
        == 0x2028 || n == 0x2029 || n == 0x202F || n == 0x205F || n == 0x3000
}

/// `s` without the white space it starts with.
pub open spec fn trim_start(s: Seq<char>) -> Seq<char>
    decreases s.len(),
{
    if s.len() > 0 && is_space(s[0]) {
        trim_start(s.drop_first())
    } else {
        s
    }
}

/// `s` without the white space it ends with.
pub open spec fn trim_end(s: Seq<char>) -> Seq<char>
    decreases s.len(),
{
    if s.len() > 0 && is_space(s.last()) {
        trim_end(s.drop_last())
    } else {
        s
    }
}

/// The part of `s` before `end`, without the white space around it, as where it
/// starts and ends.
pub fn trimmed(s: &Vec<char>, end: usize) -> (range: (usize, usize))
    requires
        end <= s@.len(),
    ensures
        range.0 <= range.1 <= end,
        s@.subrange(range.0 as int, range.1 as int) == trim_end(trim_start(s@.take(end as int))),
{
    let ghost whole = s@.take(end as int);
    let mut from: usize = 0;
    assert(s@.subrange(0, end as int) =~= whole);
    while from < end && space(s[from])
        invariant
            from <= end <= s@.len(),
            trim_start(s@.subrange(from as int, end as int)) == trim_start(whole),
        decreases end - from,
    {
        assert(s@.subrange(from as int, end as int).drop_first() =~= s@.subrange(from + 1, end as int));
        from = from + 1;
    }
    assert(s@.subrange(from as int, end as int) == trim_start(whole)) by {
        if from < end {
            assert(s@.subrange(from as int, end as int)[0] == s@[from as int]);
        }
    }
    let mut to: usize = end;
    while to > from && space(s[to - 1])
        invariant
            from <= to <= end <= s@.len(),
            trim_end(s@.subrange(from as int, to as int)) == trim_end(trim_start(whole)),
        decreases to,
    {
        assert(s@.subrange(from as int, to as int).drop_last() =~= s@.subrange(from as int, to - 1));
        to = to - 1;
    }
    assert(s@.subrange(from as int, to as int) == trim_end(trim_start(whole))) by {
        if to > from {
            assert(s@.subrange(from as int, to as int).last() == s@[to - 1]);
        }
    }
    (from, to)
}

/// A letter from A to Z as its lower-case code, any other character as its own.
pub open spec fn lower_code(c: char) -> u32 {
    if 65 <= c as u32 <= 90 {
        ((c as u32) + 32) as u32
    } else {
        c as u32
    }
}

/// The same, but for the case of the letters from A to Z.
pub open spec fn same_but_case(a: Seq<char>, b: Seq<char>) -> bool {
    &&& a.len() == b.len()
    &&& forall|i: int| 0 <= i < a.len() ==> lower_code(#[trigger] a[i]) == lower_code(b[i])
}

fn lower(c: char) -> (code: u32)
    ensures
        code == lower_code(c),
{
    let n: u32 = c as u32;
    if 65 <= n && n <= 90 {
        n + 32
    } else {
        n
    }
}

/// Whether the part of `s` from `from` to `to` is `text`, but for the case of
/// the letters from A to Z.
pub fn range_matches(s: &Vec<char>, from: usize, to: usize, text: &Vec<char>) -> (yes: bool)
    requires
        from <= to <= s@.len(),
    ensures
        yes == same_but_case(s@.subrange(from as int, to as int), text@),
{
    let ghost part = s@.subrange(from as int, to as int);
    if to - from != text.len() {
        return false;
    }
    let mut i: usize = 0;
    while i < text.len()
        invariant
            i <= text@.len(),
            part.len() == text@.len(),
            from + text@.len() == to,
            to <= s@.len(),
            part == s@.subrange(from as int, to as int),
            forall|j: int| 0 <= j < i ==> lower_code(#[trigger] part[j]) == lower_code(text@[j]),
        decreases text@.len() - i,
    {
        assert(part[i as int] == s@[from + i]);
        if lower(s[from + i]) != lower(text[i]) {
            return false;
        }
        i = i + 1;
    }
    true
}

/// A string as the standard library prints it for debugging: in quotes, with
/// escapes.
pub uninterp spec fn quoted(text: Seq<char>) -> Seq<char>;

/// A string in quotes, with escapes.
///
/// Formats the string with `{:?}`, the `Debug` of `str`. It is taken on trust
/// that what comes of it depends on nothing but the string.
#[verifier::external_body]
pub(crate) fn quoted_text(text: &str) -> (shown: String)
    ensures
        shown@ == quoted(text@),
{
    format!("{text:?}")
}

/// One of the decimal digits.
pub open spec fn is_digit(c: char) -> bool {
    48 <= c as u32 <= 57
}

/// The number that some digits name.
pub open spec fn digits_value(digits: Seq<char>) -> nat
    decreases digits.len(),
{
    if digits.len() == 0 {
        0
    } else {
        digits_value(digits.drop_last()) * 10 + (digits.last() as u32 - 48) as nat
    }
}

/// The number that a text names: digits, at least one, and a plus sign before
/// them or not.
pub open spec fn number(text: Seq<char>) -> Option<nat> {
    let digits = unsigned(text);
    if digits.len() > 0 && all_digits(digits) {
        Some(digits_value(digits))
    } else {
        None
    }
}

/// A text without the plus sign that it may start with.
pub open spec fn unsigned(text: Seq<char>) -> Seq<char> {
    if text.len() > 0 && text[0] == '+' {
        text.skip(1)
    } else {
        text
    }
}

/// Nothing but digits.
pub open spec fn all_digits(digits: Seq<char>) -> bool {
    forall|i: int| 0 <= i < digits.len() ==> is_digit(#[trigger] digits[i])
}

/// The number that a text names, if a `u64` can hold it.
pub open spec fn whole_number(text: Seq<char>) -> Option<u64> {
    match number(text) {
        Some(n) => if n <= u64::MAX {
            Some(n as u64)
        } else {
            None
        },
        None => None,
    }
}

/// A text that names no number that a `u64` can hold.
#[derive(Debug, PartialEq, Eq)]
pub struct InvalidNumber {
    /// The text.
    pub text: String,
}

impl InvalidNumber {
    /// What the error says.
    pub fn message(&self) -> (words: String)
        ensures
            words@ == "not a number: "@ + quoted(self.text@),
    {
        "not a number: ".to_owned().concat(quoted_text(self.text.as_str()).as_str())
    }
}

/// The number that a text names, if it names one that a `u64` can hold.
pub fn parse_number(text: &str) -> (n: Option<u64>)
    ensures
        n == whole_number(text@),
{
    let chars = chars_of(text);
    let len: usize = chars.len();
    let start: usize = if len > 0 && chars[0] == '+' {
        1
    } else {
        0
    };
    let ghost digits = chars@.skip(start as int);
    assert(start == 0 ==> digits =~= chars@);
    if start == len {
        return None;
    }
    let mut total: u64 = 0;
    let mut fits = true;
    let mut i: usize = start;
    assert(digits.take(0) =~= Seq::empty());
    while i < len
        invariant
            start <= i <= len,
            len == chars@.len(),
            start < len,
            text@ == chars@,
            digits == chars@.skip(start as int),
            digits == unsigned(text@),
            forall|j: int| 0 <= j < i - start ==> is_digit(#[trigger] digits[j]),
            fits ==> total == digits_value(digits.take(i - start)),
            !fits ==> digits_value(digits.take(i - start)) > u64::MAX,
        decreases len - i,
    {
        let code: u32 = chars[i] as u32;
        assert(digits[i - start] == chars@[i as int]);
        if code < 48 || code > 57 {
            assert(!is_digit(digits[i - start]));
            assert(!all_digits(digits));
            return None;
        }
        proof {
            let next = digits.take(i - start + 1);
            assert(next.drop_last() =~= digits.take(i - start));
            assert(next.last() == digits[i - start]);
        }
        if fits {
            match total.checked_mul(10) {
                Some(tens) => match tens.checked_add((code - 48) as u64) {
                    Some(sum) => {
                        total = sum;
                    },
                    None => {
                        fits = false;
                    },
                },
                None => {
                    fits = false;
                },
            }
        }
        i = i + 1;
    }
    assert(digits.take(len - start) =~= digits);
    if fits {
        Some(total)
    } else {
        None
    }
}

} // verus!
