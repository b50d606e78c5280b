//! Errors: how they travel, and what they say.

use vstd::prelude::*;

use crate::error::{poisoned, truncated, unwrap_io, Detail, Error, ErrorKind, IoError};
use crate::text::{byte_list_text, InvalidNumber};
use crate::text::{decimal, quoted};
use super::numbers::{in_decimal, lemma_decimal};

verus! {

/// A truncation that comes back from I/O is the mismatch that it carries, with
/// the same two sizes. Anything else stays what it was, inside an I/O error.
pub proof fn law_only_a_truncation_is_unwrapped(err: IoError, e: Error)
    requires
        call_ensures(unwrap_io, (err,), e),
    ensures
        match err.detail {
            Detail::Carried(inner) => match *inner {
                Error::SizeMismatch { expected, actual } => if err.kind == ErrorKind::UnexpectedEof {
                    e == (Error::SizeMismatch { expected, actual })
                } else {
                    e == Error::Io(err)
                },
                _ => e == Error::Io(err),
            },
            _ => e == Error::Io(err),
        },
{
}

/// The same through the conversion.
pub proof fn law_only_a_truncation_is_converted(err: IoError, e: Error)
    requires
        call_ensures(<Error as From<IoError>>::from, (err,), e),
    ensures
        match err.detail {
            Detail::Carried(inner) => match *inner {
                Error::SizeMismatch { expected, actual } => if err.kind == ErrorKind::UnexpectedEof {
                    e == (Error::SizeMismatch { expected, actual })
                } else {
                    e == Error::Io(err)
                },
                _ => e == Error::Io(err),
            },
            _ => e == Error::Io(err),
        },
{
}

/// An I/O error travels as itself. Any other error is carried, under the kind
/// of an unexpected end if it is a truncation, of a broken pipe if a writer is
/// poisoned, and of bad data otherwise.
pub proof fn law_an_error_is_carried_under_its_kind(err: Error, io: IoError)
    requires
        call_ensures(<IoError as From<Error>>::from, (err,), io),
    ensures
        match err {
            Error::Io(inner) => io == inner,
            _ => {
                &&& io.detail matches Detail::Carried(inner)
                &&& *inner == err
                &&& io.kind == match err {
                    Error::SizeMismatch { .. } => ErrorKind::UnexpectedEof,
                    Error::WriterPoisoned => ErrorKind::BrokenPipe,
                    _ => ErrorKind::InvalidData,
                }
            },
        },
{
}

/// A truncation keeps both sizes on its way out and back.
pub proof fn law_a_truncation_comes_back(expected: u64, actual: u64, io: IoError, e: Error)
    requires
        call_ensures(truncated, (expected, actual), io),
        call_ensures(unwrap_io, (io,), e),
    ensures
        io.kind == ErrorKind::UnexpectedEof,
        e matches Error::SizeMismatch { expected: declared, actual: there } && declared == expected && there == actual,
{
}

/// A poisoned writer is a broken pipe that says so.
pub proof fn law_a_poisoned_writer_is_a_broken_pipe(io: IoError, kind: ErrorKind, inner: Option<&Error>)
    requires
        call_ensures(poisoned, (), io),
        call_ensures(IoError::kind, (&io,), kind),
        call_ensures(IoError::carried, (&io,), inner),
    ensures
        kind == ErrorKind::BrokenPipe,
        inner matches Some(e) && *e == Error::WriterPoisoned,
{
}

/// An error with a message keeps its kind and says the message.
pub proof fn law_a_message_is_kept(kind: ErrorKind, message: &str, io: IoError, told: ErrorKind, text: String, inner: Option<&Error>)
    requires
        call_ensures(IoError::new, (kind, message), io),
        call_ensures(IoError::kind, (&io,), told),
        call_ensures(IoError::message, (&io,), text),
        call_ensures(IoError::carried, (&io,), inner),
    ensures
        told == kind,
        text@ == message@,
        inner is None,
{
}

/// What carries an error says what that error says.
pub proof fn law_carrying_adds_no_words(err: &Error, io: &IoError, inner: String, outer: String, wrapped: String)
    requires
        io.detail matches Detail::Carried(e) && *e == *err,
        call_ensures(Error::message, (err,), inner),
        call_ensures(IoError::message, (io,), outer),
        call_ensures(Error::message, (&Error::Io(*io),), wrapped),
    ensures
        outer@ == inner@,
        wrapped@ == inner@,
{
}

/// `text` is a number between these words.
pub open spec fn says_one(text: Seq<char>, before: Seq<char>, n: nat, after: Seq<char>) -> bool {
    exists|d: Seq<char>| #[trigger] in_decimal(d, n) && text == before + d + after
}

/// `text` is two numbers between these words.
pub open spec fn says_two(text: Seq<char>, before: Seq<char>, n: nat, between: Seq<char>, m: nat, after: Seq<char>) -> bool {
    exists|d: Seq<char>, e: Seq<char>| #[trigger] in_decimal(d, n) && #[trigger] in_decimal(e, m) && text == before + d + between + e
        + after
}

proof fn lemma_says_two(text: Seq<char>, before: Seq<char>, n: nat, between: Seq<char>, m: nat, after: Seq<char>)
    requires
        text == before + decimal(n) + between + decimal(m) + after,
    ensures
        says_two(text, before, n, between, m, after),
{
    lemma_decimal(n);
    lemma_decimal(m);
}

/// Each error names the numbers it is about, in decimal and in their places.
pub proof fn law_errors_name_their_numbers(err: &Error, text: String)
    requires
        call_ensures(Error::message, (err,), text),
    ensures
        match *err {
            Error::SizeMismatch { expected, actual } => says_two(
                text@,
                "content size mismatch: header declares "@,
                expected as nat,
                " bytes, got "@,
                actual as nat,
                Seq::empty(),
            ),
            Error::TrailingData(n) => says_one(text@, Seq::empty(), n as nat, " trailing bytes after flow file content"@),
            Error::TooManyAttributes { count, limit } => says_two(
                text@,
                "attribute count "@,
                count as nat,
                " exceeds the limit of "@,
                limit as nat,
                Seq::empty(),
            ),
            Error::AttributeTooLong { len, limit } => says_two(
                text@,
                "attribute length "@,
                len as nat,
                " exceeds the limit of "@,
                limit as nat,
                " bytes"@,
            ),
            Error::HeaderTooLarge { len, limit } => says_two(
                text@,
                "attribute bytes total "@,
                len as nat,
                ", which exceeds the limit of "@,
                limit as nat,
                " bytes"@,
            ),
            Error::ContentTooLarge { size, limit } => says_two(
                text@,
                "content size "@,
                size as nat,
                " exceeds the limit of "@,
                limit as nat,
                " bytes"@,
            ),
            Error::InvalidAttribute(invalid) => text@ == "attribute is not valid UTF-8: "@ + invalid.reason@,
            Error::WriterPoisoned => text@
                == "flow file writer is poisoned: an earlier write left a truncated flow file in the stream"@,
            Error::InvalidMagic(_) => "invalid magic header: expected \"NiFiFF3\", got "@.is_prefix_of(text@),
            Error::Io(_) => true,
        },
{
    match *err {
        Error::SizeMismatch { expected, actual } => {
            assert(text@ =~= "content size mismatch: header declares "@ + decimal(expected as nat) + " bytes, got "@ + decimal(
                actual as nat,
            ) + Seq::<char>::empty());
            lemma_says_two(
                text@,
                "content size mismatch: header declares "@,
                expected as nat,
                " bytes, got "@,
                actual as nat,
                Seq::empty(),
            );
        },
        Error::TrailingData(n) => {
            lemma_decimal(n as nat);
            assert(text@ =~= Seq::<char>::empty() + decimal(n as nat) + " trailing bytes after flow file content"@);
        },
        Error::TooManyAttributes { count, limit } => {
            assert(text@ =~= "attribute count "@ + decimal(count as nat) + " exceeds the limit of "@ + decimal(limit as nat)
                + Seq::<char>::empty());
            lemma_says_two(
                text@,
                "attribute count "@,
                count as nat,
                " exceeds the limit of "@,
                limit as nat,
                Seq::empty(),
            );
        },
        Error::AttributeTooLong { len, limit } => {
            lemma_says_two(
                text@,
                "attribute length "@,
                len as nat,
                " exceeds the limit of "@,
                limit as nat,
                " bytes"@,
            );
        },
        Error::HeaderTooLarge { len, limit } => {
            lemma_says_two(
                text@,
                "attribute bytes total "@,
                len as nat,
                ", which exceeds the limit of "@,
                limit as nat,
                " bytes"@,
            );
        },
        Error::ContentTooLarge { size, limit } => {
            lemma_says_two(
                text@,
                "content size "@,
                size as nat,
                " exceeds the limit of "@,
                limit as nat,
                " bytes"@,
            );
        },
        Error::InvalidMagic(found) => {
            let words = "invalid magic header: expected \"NiFiFF3\", got "@;
            assert(words =~= text@.take(words.len() as int));
        },
        _ => {},
    }
}

/// A wrong start is told with its seven bytes as a list.
pub proof fn law_a_wrong_start_is_told_byte_by_byte(err: &Error, text: String, found: [u8; 7], bytes: &[u8], list: String)
    requires
        *err == Error::InvalidMagic(found),
        bytes@ == found@,
        call_ensures(Error::message, (err,), text),
        call_ensures(byte_list_text, (bytes,), list),
    ensures
        text@ == "invalid magic header: expected \"NiFiFF3\", got "@ + list@,
{
}

/// What is no number is told as it was written.
pub proof fn law_what_is_no_number_is_told(err: &InvalidNumber, text: String)
    requires
        call_ensures(InvalidNumber::message, (err,), text),
    ensures
        text@ == "not a number: "@ + quoted(err.text@),
{
}

} // verus!
