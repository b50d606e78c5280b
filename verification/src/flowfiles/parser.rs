//! Parsing a header out of a stream, a field at a time.
//!
//! [`HeaderParser`] is told what each read came to, so that anything can drive
//! it; [`parse_flow_file_from_reader`] drives it over a [`Reader`].

use vstd::prelude::*;
use vstd::utf8::*;

use crate::async_io::ReadEvent;
use crate::attributes::AttributeMap;
use crate::attributes::Attributes;
use crate::decode::complete_len;
use crate::decode::{field_len, lemma_field_len, whole_len};
use crate::error::{Detail, ErrorKind, IoError};
use crate::flowfiles::error::FlowFileParsingError;
use crate::flowfiles::header::FlowFileHeader;
use crate::flowfiles::iterator::StreamedFlowFile;
use crate::format::{be_value, lemma_be_value, lemma_pow256, magic};
use crate::format::{read_be, write_bytes, MAGIC};
use crate::io::{read_some, Reader, Take, CHUNK};
use crate::text::string_from_utf8;
use crate::text::utf8_complaint;

verus! {

/// What part of a header is being read.
#[derive(Debug, Clone, Copy, PartialEq, Eq, Structural)]
pub enum Stage {
    Magic,
    Count,
    Key,
    Value,
    Size,
}

impl Stage {
    /// The stage in words.
    pub open spec fn words(self) -> Seq<char> {
        match self {
            Stage::Magic => "Could not read 7 bytes to check for flow file magic bytes"@,
            Stage::Count => "Reading number of attributes in flowfile"@,
            Stage::Key => "Reading key from attribute"@,
            Stage::Value => "Reading value from attribute"@,
            Stage::Size => "Reading content length as u64"@,
        }
    }

    /// The stage in words.
    pub fn context(self) -> (words: &'static str)
        ensures
            words@ == self.words(),
    {
        match self {
            Stage::Magic => "Could not read 7 bytes to check for flow file magic bytes",
            Stage::Count => "Reading number of attributes in flowfile",
            Stage::Key => "Reading key from attribute",
            Stage::Value => "Reading value from attribute",
            Stage::Size => "Reading content length as u64",
        }
    }
}

/// Why a header stops short.
pub enum Cause {
    /// The stream ended.
    End,
    /// These bytes of a key or value are not UTF-8.
    Text(Seq<u8>),
    /// The stream failed.
    Failed(IoError),
}

/// What becomes of the bytes of a stream as a header, and which of them are
/// left.
pub enum Parsed {
    /// The stream ended before a header began.
    Nothing,
    /// A header. `count` is how many bytes the flow file takes, header and
    /// content.
    Header { attributes: AttributeMap, size: u64, count: u64, rest: Seq<u8> },
    /// These seven bytes are not the magic header.
    BadMagic { bytes: Seq<u8>, rest: Seq<u8> },
    /// The header stops short.
    Malformed { stage: Stage, cause: Cause, rest: Seq<u8> },
}

/// What becomes of the bytes of a key or value, and which of them are left.
pub enum Piece {
    Text { chars: Seq<char>, len: nat, rest: Seq<u8> },
    Stop { cause: Cause, rest: Seq<u8> },
}

/// How a stream that ends in `failure` stops.
pub open spec fn stopped(failure: Option<IoError>) -> Cause {
    match failure {
        Some(e) => Cause::Failed(e),
        None => Cause::End,
    }
}

/// How many bytes a field length takes for `n`.
pub open spec fn encoded_size(n: nat) -> nat {
    if n >= 0xFFFF {
        6
    } else {
        2
    }
}

/// A count of bytes, as far as a `u64` can hold it.
pub open spec fn plus(count: u64, n: nat) -> u64 {
    if count + n <= u64::MAX {
        (count + n) as u64
    } else {
        u64::MAX
    }
}

/// The `len` bytes of a key or value at the front of `bytes`, or as many as
/// there are before a clean end: the end is noticed by what is read next.
pub open spec fn piece_body(bytes: Seq<u8>, len: nat, failure: Option<IoError>) -> Piece {
    if bytes.len() < len && failure is Some {
        Piece::Stop { cause: stopped(failure), rest: Seq::empty() }
    } else {
        let n = if bytes.len() < len {
            bytes.len()
        } else {
            len
        };
        if valid_utf8(bytes.take(n as int)) {
            Piece::Text { chars: decode_utf8(bytes.take(n as int)), len: n, rest: bytes.skip(n as int) }
        } else {
            Piece::Stop { cause: Cause::Text(bytes.take(n as int)), rest: bytes.skip(n as int) }
        }
    }
}

/// A key or value at the front of `bytes`: its length, then its bytes.
pub open spec fn piece(bytes: Seq<u8>, failure: Option<IoError>) -> Piece {
    match field_len(bytes) {
        None => Piece::Stop { cause: stopped(failure), rest: Seq::empty() },
        Some((len, rest)) => piece_body(rest, len, failure),
    }
}

/// The content size at the front of `bytes`, which ends a header.
pub open spec fn sized(bytes: Seq<u8>, count: u64, attributes: AttributeMap, failure: Option<IoError>) -> Parsed {
    if bytes.len() < 8 {
        Parsed::Malformed { stage: Stage::Size, cause: stopped(failure), rest: Seq::empty() }
    } else {
        let size = be_value(bytes.take(8)) as u64;
        Parsed::Header { attributes, size, count: plus(count, 8 + size as nat), rest: bytes.skip(8) }
    }
}

/// `left` attributes at the front of `bytes`, then the content size, given
/// what was read before them.
pub open spec fn attributed(
    bytes: Seq<u8>,
    left: nat,
    count: u64,
    before: AttributeMap,
    failure: Option<IoError>,
) -> Parsed
    decreases left, 2nat,
{
    if left == 0 {
        sized(bytes, count, before, failure)
    } else {
        keyed(piece(bytes, failure), left, count, before, failure)
    }
}

/// The rest of a header after a key.
pub open spec fn keyed(key: Piece, left: nat, count: u64, before: AttributeMap, failure: Option<IoError>) -> Parsed
    decreases left, 1nat,
{
    match key {
        Piece::Stop { cause, rest } => Parsed::Malformed { stage: Stage::Key, cause, rest },
        Piece::Text { chars, len, rest } => valued(
            chars,
            piece(rest, failure),
            left,
            plus(count, len + encoded_size(len)),
            before,
            failure,
        ),
    }
}

/// The rest of a header after a value.
pub open spec fn valued(
    key: Seq<char>,
    value: Piece,
    left: nat,
    count: u64,
    before: AttributeMap,
    failure: Option<IoError>,
) -> Parsed
    decreases left, 0nat,
{
    match value {
        Piece::Stop { cause, rest } => Parsed::Malformed { stage: Stage::Value, cause, rest },
        Piece::Text { chars, len, rest } => if left == 0 {
            Parsed::Nothing
        } else {
            attributed(
                rest,
                (left - 1) as nat,
                plus(count, len + encoded_size(len)),
                before.insert(key, chars),
                failure,
            )
        },
    }
}

/// The attribute count at the front of `bytes`, and the rest of a header.
pub open spec fn counted(bytes: Seq<u8>, failure: Option<IoError>) -> Parsed {
    match field_len(bytes) {
        None => Parsed::Malformed { stage: Stage::Count, cause: stopped(failure), rest: Seq::empty() },
        Some((n, rest)) => attributed(rest, n, plus(7, encoded_size(n)), Map::empty(), failure),
    }
}

/// What becomes of a stream that holds `bytes` and then ends in `failure`, as
/// a header.
pub open spec fn parsed(bytes: Seq<u8>, failure: Option<IoError>) -> Parsed {
    if bytes.len() < 7 {
        if failure matches Some(e) && e.kind != ErrorKind::UnexpectedEof {
            Parsed::Malformed { stage: Stage::Magic, cause: stopped(failure), rest: Seq::empty() }
        } else {
            Parsed::Nothing
        }
    } else if bytes.take(7) != magic() {
        Parsed::BadMagic { bytes: bytes.take(7), rest: bytes.skip(7) }
    } else {
        counted(bytes.skip(7), failure)
    }
}

/// The error that a cause is reported as.
pub open spec fn caused(e: IoError, cause: Cause) -> bool {
    match cause {
        Cause::End => {
            &&& e.kind == ErrorKind::UnexpectedEof
            &&& e.detail matches Detail::Message(text)
            &&& text@ == "unexpected end of file"@
        },
        Cause::Text(bytes) => {
            &&& e.kind == ErrorKind::InvalidData
            &&& e.detail matches Detail::Message(text)
            &&& text@ == utf8_complaint(bytes)
        },
        Cause::Failed(failure) => e == failure,
    }
}

/// `e` reports that there is no header here, and `rest` is what it leaves.
pub open spec fn tells(e: FlowFileParsingError, what: Parsed, left: Seq<u8>) -> bool {
    match what {
        Parsed::BadMagic { bytes, rest } => {
            &&& e matches FlowFileParsingError::BadMagicBytes(found)
            &&& found@ == bytes
            &&& left == rest
        },
        Parsed::Malformed { stage, cause, rest } => {
            &&& e matches FlowFileParsingError::Malformed { context, io_error }
            &&& context@ == stage.words()
            &&& caused(io_error, cause)
            &&& left == rest
        },
        _ => false,
    }
}

/// Which field a parser is reading.
#[derive(Debug, Clone, Copy, PartialEq, Eq, Structural)]
pub enum Field {
    Magic,
    Count,
    KeyLen,
    Key(usize),
    ValueLen,
    Value(usize),
    Size,
}

/// A header that is being read from a stream.
#[derive(Debug)]
pub struct HeaderParser {
    field: Field,
    have: Vec<u8>,
    left: usize,
    key: String,
    attributes: Attributes,
    count: u64,
}

/// What to do about a header.
#[derive(Debug)]
pub enum ParseStep {
    /// Read up to [`wanted`](HeaderParser::wanted) bytes, and come back with
    /// what that came to.
    Read(HeaderParser),
    /// The stream ended before a header began.
    Nothing,
    /// A header, and how many bytes the flow file takes, header and content.
    Header(FlowFileHeader, u64),
    /// There is no header here.
    Failed(FlowFileParsingError),
}

/// What a step says of a stream of which `before` has read `bytes` more:
/// whatever follows them, and however it ends, the step agrees with what
/// becomes of it.
pub open spec fn agrees(step: ParseStep, before: HeaderParser, bytes: Seq<u8>) -> bool {
    match step {
        ParseStep::Read(next) => forall|rest: Seq<u8>, failure: Option<IoError>| #[trigger]
            next.outcome(rest, failure) == before.outcome(bytes + rest, failure),
        ParseStep::Header(header, count) => forall|rest: Seq<u8>, failure: Option<IoError>| #[trigger]
            before.outcome(bytes + rest, failure) == (Parsed::Header {
                attributes: header.attributes@,
                size: header.size,
                count,
                rest,
            }),
        ParseStep::Failed(e) => forall|rest: Seq<u8>, failure: Option<IoError>| tells(
            e,
            #[trigger] before.outcome(bytes + rest, failure),
            rest,
        ),
        ParseStep::Nothing => false,
    }
}

/// What a step says of a stream that ends here.
pub open spec fn concludes(step: ParseStep, what: Parsed) -> bool {
    match step {
        ParseStep::Nothing => what is Nothing,
        ParseStep::Failed(e) => tells(e, what, Seq::empty()),
        _ => false,
    }
}

impl HeaderParser {
    #[verifier::type_invariant]
    spec fn waiting(&self) -> bool {
        &&& self.missing() > 0
        &&& self.have@.len() <= 6 || self.field is Magic || self.field is Size || self.field is Key
            || self.field is Value
        &&& self.in_attributes() ==> 0 < self.left <= u32::MAX
        &&& self.is_len() && self.have@.len() > 2 ==> be_value(self.have@.take(2)) >= 0xFFFF
        &&& self.is_len() ==> whole_len(self.have@) is None && self.have@.len() < 6
    }

    spec fn in_attributes(&self) -> bool {
        self.field is KeyLen || self.field is Key || self.field is ValueLen || self.field is Value
    }

    spec fn is_len(&self) -> bool {
        self.field is Count || self.field is KeyLen || self.field is ValueLen
    }

    /// How many bytes the field still needs.
    closed spec fn missing(&self) -> int {
        let n = self.have@.len();
        match self.field {
            Field::Magic => 7 - n,
            Field::Key(len) => len - n,
            Field::Value(len) => len - n,
            Field::Size => 8 - n,
            _ => if n < 2 {
                2 - n
            } else {
                6 - n
            },
        }
    }

    /// How many bytes can be taken at once.
    pub closed spec fn room(&self) -> nat {
        self.missing() as nat
    }

    /// What becomes of the header if `rest` are the bytes still to come, and
    /// the stream then ends in `failure`.
    pub closed spec fn outcome(&self, rest: Seq<u8>, failure: Option<IoError>) -> Parsed {
        self.outlook(self.have@ + rest, failure)
    }

    /// What becomes of the header if `bytes` are those of the field that is
    /// being read, and all that follow.
    #[verifier::opaque]
    spec fn outlook(&self, bytes: Seq<u8>, failure: Option<IoError>) -> Parsed {
        let left = self.left as nat;
        let before = self.attributes@;
        match self.field {
            Field::Magic => parsed(bytes, failure),
            Field::Count => counted(bytes, failure),
            Field::KeyLen => keyed(piece(bytes, failure), left, self.count, before, failure),
            Field::Key(len) => keyed(piece_body(bytes, len as nat, failure), left, self.count, before, failure),
            Field::ValueLen => valued(self.key@, piece(bytes, failure), left, self.count, before, failure),
            Field::Value(len) => valued(
                self.key@,
                piece_body(bytes, len as nat, failure),
                left,
                self.count,
                before,
                failure,
            ),
            Field::Size => sized(bytes, self.count, before, failure),
        }
    }

    /// A parser that has read nothing.
    pub fn new() -> (parser: HeaderParser)
        ensures
            forall|bytes: Seq<u8>, failure: Option<IoError>| #[trigger]
                parser.outcome(bytes, failure) == parsed(bytes, failure),
            parser.room() == 7,
    {
        let parser = HeaderParser {
            field: Field::Magic,
            have: Vec::new(),
            left: 0,
            key: String::new(),
            attributes: Attributes::new(),
            count: 0,
        };
        assert forall|bytes: Seq<u8>, failure: Option<IoError>| #[trigger]
            parser.outcome(bytes, failure) == parsed(bytes, failure) by {
            reveal(HeaderParser::outlook);
            assert(parser.have@ + bytes =~= bytes);
        }
        parser
    }

    /// How many bytes to read at most. Never more than the field needs, so
    /// that nothing after the header is taken.
    pub fn wanted(&self) -> (n: usize)
        ensures
            1 <= n <= self.room(),
            n <= CHUNK,
            n == if self.room() < CHUNK {
                self.room()
            } else {
                CHUNK as nat
            },
    {
        proof {
            use_type_invariant(self);
        }
        let have: usize = self.have.len();
        let missing: usize = match self.field {
            Field::Magic => 7 - have,
            Field::Key(len) => len - have,
            Field::Value(len) => len - have,
            Field::Size => 8 - have,
            _ => if have < 2 {
                2 - have
            } else {
                6 - have
            },
        };
        if missing < CHUNK {
            missing
        } else {
            CHUNK
        }
    }

    /// Go on with the next attribute, or the content size after the last.
    fn to_attribute(left: usize, count: u64, attributes: Attributes) -> (parser: HeaderParser)
        requires
            left <= u32::MAX,
        ensures
            forall|rest: Seq<u8>, failure: Option<IoError>| #[trigger]
                parser.outcome(rest, failure) == attributed(rest, left as nat, count, attributes@, failure),
    {
        let field = if left == 0 {
            Field::Size
        } else {
            Field::KeyLen
        };
        let parser = HeaderParser { field, have: Vec::new(), left, key: String::new(), attributes, count };
        assert forall|rest: Seq<u8>, failure: Option<IoError>| #[trigger]
            parser.outcome(rest, failure) == attributed(rest, left as nat, count, attributes@, failure) by {
            reveal(HeaderParser::outlook);
            assert(parser.have@ + rest =~= rest);
        }
        parser
    }

    /// Go on with the value of an attribute.
    fn to_value(key: String, left: usize, count: u64, attributes: Attributes) -> (parser: HeaderParser)
        requires
            0 < left <= u32::MAX,
        ensures
            forall|rest: Seq<u8>, failure: Option<IoError>| #[trigger]
                parser.outcome(rest, failure) == valued(
                    key@,
                    piece(rest, failure),
                    left as nat,
                    count,
                    attributes@,
                    failure,
                ),
    {
        let parser = HeaderParser { field: Field::ValueLen, have: Vec::new(), left, key, attributes, count };
        assert forall|rest: Seq<u8>, failure: Option<IoError>| #[trigger]
            parser.outcome(rest, failure) == valued(
                key@,
                piece(rest, failure),
                left as nat,
                count,
                attributes@,
                failure,
            ) by {
            reveal(HeaderParser::outlook);
            assert(parser.have@ + rest =~= rest);
        }
        parser
    }

    /// Go on with the bytes of a key.
    fn to_key_of(len: usize, left: usize, count: u64, attributes: Attributes) -> (parser: HeaderParser)
        requires
            0 < left <= u32::MAX,
        ensures
            forall|rest: Seq<u8>, failure: Option<IoError>| #[trigger]
                parser.outcome(rest, failure) == keyed(
                    piece_body(rest, len as nat, failure),
                    left as nat,
                    count,
                    attributes@,
                    failure,
                ),
    {
        if len == 0 {
            proof {
                lemma_no_text();
            }
            return HeaderParser::to_value(String::new(), left, grown(count, 0), attributes);
        }
        let parser = HeaderParser { field: Field::Key(len), have: Vec::new(), left, key: String::new(), attributes, count };
        assert forall|rest: Seq<u8>, failure: Option<IoError>| #[trigger]
            parser.outcome(rest, failure) == keyed(
                piece_body(rest, len as nat, failure),
                left as nat,
                count,
                attributes@,
                failure,
            ) by {
            reveal(HeaderParser::outlook);
            assert(parser.have@ + rest =~= rest);
        }
        parser
    }

    /// Go on after a value.
    fn after_value(key: String, value: String, left: usize, count: u64, attributes: Attributes) -> (parser: HeaderParser)
        requires
            0 < left <= u32::MAX,
        ensures
            forall|rest: Seq<u8>, failure: Option<IoError>| #[trigger]
                parser.outcome(rest, failure) == attributed(
                    rest,
                    (left - 1) as nat,
                    count,
                    attributes@.insert(key@, value@),
                    failure,
                ),
    {
        let mut attributes = attributes;
        attributes.insert(key, value);
        HeaderParser::to_attribute(left - 1, count, attributes)
    }

    /// Go on with the bytes of a value.
    fn to_value_of(len: usize, key: String, left: usize, count: u64, attributes: Attributes) -> (parser: HeaderParser)
        requires
            0 < left <= u32::MAX,
        ensures
            forall|rest: Seq<u8>, failure: Option<IoError>| #[trigger]
                parser.outcome(rest, failure) == valued(
                    key@,
                    piece_body(rest, len as nat, failure),
                    left as nat,
                    count,
                    attributes@,
                    failure,
                ),
    {
        if len == 0 {
            proof {
                lemma_no_text();
            }
            return HeaderParser::after_value(key, String::new(), left, grown(count, 0), attributes);
        }
        let parser = HeaderParser { field: Field::Value(len), have: Vec::new(), left, key, attributes, count };
        assert forall|rest: Seq<u8>, failure: Option<IoError>| #[trigger]
            parser.outcome(rest, failure) == valued(
                key@,
                piece_body(rest, len as nat, failure),
                left as nat,
                count,
                attributes@,
                failure,
            ) by {
            reveal(HeaderParser::outlook);
            assert(parser.have@ + rest =~= rest);
        }
        parser
    }
}

/// The count after a key or value of `len` bytes.
fn grown(count: u64, len: usize) -> (more: u64)
    ensures
        more == plus(count, len as nat + encoded_size(len as nat)),
{
    let field: u64 = if len >= 0xFFFF {
        6
    } else {
        2
    };
    count.saturating_add(len as u64).saturating_add(field)
}

/// No bytes are the empty text.
proof fn lemma_no_text()
    ensures
        forall|rest: Seq<u8>, failure: Option<IoError>| #[trigger]
            piece_body(rest, 0, failure) == (Piece::Text { chars: ""@, len: 0, rest }),
{
    reveal_strlit("");
    assert forall|rest: Seq<u8>, failure: Option<IoError>| #[trigger]
        piece_body(rest, 0, failure) == (Piece::Text { chars: ""@, len: 0, rest }) by {
        assert(rest.take(0) =~= Seq::empty());
        assert(rest.skip(0) =~= rest);
        assert(decode_utf8(Seq::<u8>::empty()) =~= Seq::empty());
        assert(""@ =~= Seq::empty());
    }
}

/// All the bytes of a key or value are there, and what follows does not change
/// them.
proof fn lemma_whole_text(have: Seq<u8>)
    ensures
        forall|rest: Seq<u8>, failure: Option<IoError>| #[trigger]
            piece_body(have + rest, have.len(), failure) == if valid_utf8(have) {
                Piece::Text { chars: decode_utf8(have), len: have.len(), rest }
            } else {
                Piece::Stop { cause: Cause::Text(have), rest }
            },
{
    assert forall|rest: Seq<u8>, failure: Option<IoError>| #[trigger]
        piece_body(have + rest, have.len(), failure) == if valid_utf8(have) {
            Piece::Text { chars: decode_utf8(have), len: have.len(), rest }
        } else {
            Piece::Stop { cause: Cause::Text(have), rest }
        } by {
        assert((have + rest).take(have.len() as int) =~= have);
        assert((have + rest).skip(have.len() as int) =~= rest);
    }
}

/// The error for bytes that are not UTF-8.
fn not_text(stage: Stage, reason: String) -> (e: FlowFileParsingError)
    ensures
        e matches FlowFileParsingError::Malformed { context, io_error } && context@ == stage.words() && io_error.kind
            == ErrorKind::InvalidData && io_error.detail == Detail::Message(reason),
{
    FlowFileParsingError::Malformed {
        context: stage.context(),
        io_error: IoError { kind: ErrorKind::InvalidData, detail: Detail::Message(reason) },
    }
}

/// All seven bytes are there.
fn magic_done(have: Vec<u8>) -> (step: ParseStep)
    requires
        have@.len() == 7,
    ensures
        match step {
            ParseStep::Read(next) => forall|rest: Seq<u8>, failure: Option<IoError>| #[trigger]
                next.outcome(rest, failure) == parsed(have@ + rest, failure),
            ParseStep::Failed(e) => forall|rest: Seq<u8>, failure: Option<IoError>| tells(
                e,
                #[trigger] parsed(have@ + rest, failure),
                rest,
            ),
            _ => false,
        },
{
    let found: [u8; 7] = [have[0], have[1], have[2], have[3], have[4], have[5], have[6]];
    assert(found@ =~= have@);
    proof {
        assert forall|rest: Seq<u8>| (#[trigger] (have@ + rest)).take(7) == have@ && (have@ + rest).skip(7) == rest by {
            assert((have@ + rest).take(7) =~= have@);
            assert((have@ + rest).skip(7) =~= rest);
        }
    }
    if !crate::decode::same_bytes(&found, &MAGIC) {
        return ParseStep::Failed(FlowFileParsingError::BadMagicBytes(found));
    }
    let next = HeaderParser {
        field: Field::Count,
        have: Vec::new(),
        left: 0,
        key: String::new(),
        attributes: Attributes::new(),
        count: 7,
    };
    assert forall|rest: Seq<u8>, failure: Option<IoError>| #[trigger]
        next.outcome(rest, failure) == parsed(have@ + rest, failure) by {
        reveal(HeaderParser::outlook);
        assert(next.have@ + rest =~= rest);
        assert((have@ + rest).take(7) == have@);
    }
    ParseStep::Read(next)
}

/// The content size is there.
fn size_done(have: Vec<u8>, count: u64, attributes: Attributes) -> (step: ParseStep)
    requires
        have@.len() == 8,
    ensures
        step matches ParseStep::Header(header, total) && forall|rest: Seq<u8>, failure: Option<IoError>| #[trigger]
            sized(have@ + rest, count, attributes@, failure) == (Parsed::Header {
                attributes: header.attributes@,
                size: header.size,
                count: total,
                rest,
            }),
{
    proof {
        lemma_pow256();
        lemma_be_value(have@);
    }
    let size: u64 = read_be(have.as_slice());
    let total: u64 = count.saturating_add(8).saturating_add(size);
    proof {
        assert forall|rest: Seq<u8>, failure: Option<IoError>| #[trigger]
            sized(have@ + rest, count, attributes@, failure) == (Parsed::Header {
                attributes: attributes@,
                size,
                count: total,
                rest,
            }) by {
            assert((have@ + rest).take(8) =~= have@);
            assert((have@ + rest).skip(8) =~= rest);
        }
    }
    ParseStep::Header(FlowFileHeader { size, attributes }, total)
}

/// The bytes of a key are there.
fn key_done(have: Vec<u8>, left: usize, count: u64, attributes: Attributes) -> (step: ParseStep)
    requires
        0 < left <= u32::MAX,
    ensures
        ({
            let what = |rest: Seq<u8>, failure: Option<IoError>|
                keyed(piece_body(have@ + rest, have@.len(), failure), left as nat, count, attributes@, failure);
            match step {
                ParseStep::Read(next) => forall|rest: Seq<u8>, failure: Option<IoError>| #[trigger]
                    next.outcome(rest, failure) == what(rest, failure),
                ParseStep::Failed(e) => forall|rest: Seq<u8>, failure: Option<IoError>| tells(
                    e,
                    #[trigger] what(rest, failure),
                    rest,
                ),
                _ => false,
            }
        }),
{
    let ghost bytes = have@;
    let len: usize = have.len();
    proof {
        lemma_whole_text(bytes);
    }
    match string_from_utf8(have) {
        Ok(key) => {
            proof {
                encode_utf8_decode_utf8(key@);
            }
            ParseStep::Read(HeaderParser::to_value(key, left, grown(count, len), attributes))
        },
        Err(invalid) => ParseStep::Failed(not_text(Stage::Key, invalid.reason)),
    }
}

/// The bytes of a value are there.
fn value_done(have: Vec<u8>, key: String, left: usize, count: u64, attributes: Attributes) -> (step: ParseStep)
    requires
        0 < left <= u32::MAX,
    ensures
        ({
            let what = |rest: Seq<u8>, failure: Option<IoError>|
                valued(key@, piece_body(have@ + rest, have@.len(), failure), left as nat, count, attributes@, failure);
            match step {
                ParseStep::Read(next) => forall|rest: Seq<u8>, failure: Option<IoError>| #[trigger]
                    next.outcome(rest, failure) == what(rest, failure),
                ParseStep::Failed(e) => forall|rest: Seq<u8>, failure: Option<IoError>| tells(
                    e,
                    #[trigger] what(rest, failure),
                    rest,
                ),
                _ => false,
            }
        }),
{
    let ghost bytes = have@;
    let len: usize = have.len();
    proof {
        lemma_whole_text(bytes);
    }
    match string_from_utf8(have) {
        Ok(value) => {
            proof {
                encode_utf8_decode_utf8(value@);
            }
            ParseStep::Read(HeaderParser::after_value(key, value, left, grown(count, len), attributes))
        },
        Err(invalid) => ParseStep::Failed(not_text(Stage::Value, invalid.reason)),
    }
}

/// The number that a length field holds, if it is whole.
fn whole_field(have: &Vec<u8>) -> (value: Option<usize>)
    requires
        have@.len() <= 6,
        have@.len() > 2 ==> be_value(have@.take(2)) >= 0xFFFF,
    ensures
        match value {
            None => whole_len(have@) is None && have@.len() < 6,
            Some(n) => {
                &&& n <= u32::MAX
                &&& forall|rest: Seq<u8>| #[trigger] field_len(have@ + rest) == Some((n as nat, rest))
            },
        },
{
    let value = complete_len(have);
    proof {
        if value is Some {
            assert forall|rest: Seq<u8>| #[trigger] field_len(have@ + rest) == Some((value->0 as nat, rest)) by {
                lemma_field_len(have@, rest);
            }
        }
    }
    value
}

impl HeaderParser {
    /// A step agrees with what becomes of the header if `have` are the bytes
    /// of the field that is being read.
    spec fn answered(&self, have: Seq<u8>, step: ParseStep) -> bool {
        match step {
            ParseStep::Read(next) => forall|rest: Seq<u8>, failure: Option<IoError>| #[trigger]
                next.outcome(rest, failure) == self.outlook(have + rest, failure),
            ParseStep::Header(header, count) => forall|rest: Seq<u8>, failure: Option<IoError>| #[trigger]
                self.outlook(have + rest, failure) == (Parsed::Header {
                    attributes: header.attributes@,
                    size: header.size,
                    count,
                    rest,
                }),
            ParseStep::Failed(e) => forall|rest: Seq<u8>, failure: Option<IoError>| tells(
                e,
                #[trigger] self.outlook(have + rest, failure),
                rest,
            ),
            ParseStep::Nothing => false,
        }
    }

    /// The field needs more.
    fn again(self, have: Vec<u8>) -> (step: ParseStep)
        requires
            (HeaderParser { have, ..self }).waiting(),
        ensures
            self.answered(have@, step),
    {
        let HeaderParser { field, left, key, attributes, count, .. } = self;
        let next = HeaderParser { field, have, left, key, attributes, count };
        assert forall|rest: Seq<u8>, failure: Option<IoError>| #[trigger]
            next.outcome(rest, failure) == self.outlook(have@ + rest, failure) by {
            reveal(HeaderParser::outlook);
        }
        ParseStep::Read(next)
    }

    fn take_magic(self, have: Vec<u8>) -> (step: ParseStep)
        requires
            self.field is Magic,
            have@.len() == 7,
        ensures
            self.answered(have@, step),
    {
        reveal(HeaderParser::outlook);
        magic_done(have)
    }

    fn take_size(self, have: Vec<u8>) -> (step: ParseStep)
        requires
            self.field is Size,
            have@.len() == 8,
        ensures
            self.answered(have@, step),
    {
        reveal(HeaderParser::outlook);
        size_done(have, self.count, self.attributes)
    }

    fn take_key(self, have: Vec<u8>) -> (step: ParseStep)
        requires
            self.field == Field::Key(have@.len() as usize),
            have@.len() <= usize::MAX,
            0 < self.left <= u32::MAX,
        ensures
            self.answered(have@, step),
    {
        let step = key_done(have, self.left, self.count, self.attributes);
        proof {
            let what = |rest: Seq<u8>, failure: Option<IoError>|
                keyed(
                    piece_body(have@ + rest, have@.len(), failure),
                    self.left as nat,
                    self.count,
                    self.attributes@,
                    failure,
                );
            assert forall|rest: Seq<u8>, failure: Option<IoError>| #[trigger]
                self.outlook(have@ + rest, failure) == what(rest, failure) by {
                reveal(HeaderParser::outlook);
            }
        }
        step
    }

    fn take_value(self, have: Vec<u8>) -> (step: ParseStep)
        requires
            self.field == Field::Value(have@.len() as usize),
            have@.len() <= usize::MAX,
            0 < self.left <= u32::MAX,
        ensures
            self.answered(have@, step),
    {
        let step = value_done(have, self.key, self.left, self.count, self.attributes);
        proof {
            let what = |rest: Seq<u8>, failure: Option<IoError>|
                valued(
                    self.key@,
                    piece_body(have@ + rest, have@.len(), failure),
                    self.left as nat,
                    self.count,
                    self.attributes@,
                    failure,
                );
            assert forall|rest: Seq<u8>, failure: Option<IoError>| #[trigger]
                self.outlook(have@ + rest, failure) == what(rest, failure) by {
                reveal(HeaderParser::outlook);
            }
        }
        step
    }

    fn take_count(self, have: Vec<u8>, n: usize) -> (step: ParseStep)
        requires
            self.field is Count,
            n <= u32::MAX,
            forall|rest: Seq<u8>| #[trigger] field_len(have@ + rest) == Some((n as nat, rest)),
        ensures
            self.answered(have@, step),
    {
        let taken: u64 = if n >= 0xFFFF {
            13
        } else {
            9
        };
        let next = HeaderParser::to_attribute(n, taken, Attributes::new());
        assert forall|rest: Seq<u8>, failure: Option<IoError>| #[trigger]
            next.outcome(rest, failure) == self.outlook(have@ + rest, failure) by {
            reveal(HeaderParser::outlook);
            assert(field_len(have@ + rest) == Some((n as nat, rest)));
        }
        ParseStep::Read(next)
    }

    fn take_key_len(self, have: Vec<u8>, n: usize) -> (step: ParseStep)
        requires
            self.field is KeyLen,
            0 < self.left <= u32::MAX,
            forall|rest: Seq<u8>| #[trigger] field_len(have@ + rest) == Some((n as nat, rest)),
        ensures
            self.answered(have@, step),
    {
        let next = HeaderParser::to_key_of(n, self.left, self.count, self.attributes);
        assert forall|rest: Seq<u8>, failure: Option<IoError>| #[trigger]
            next.outcome(rest, failure) == self.outlook(have@ + rest, failure) by {
            reveal(HeaderParser::outlook);
            assert(field_len(have@ + rest) == Some((n as nat, rest)));
        }
        ParseStep::Read(next)
    }

    fn take_value_len(self, have: Vec<u8>, n: usize) -> (step: ParseStep)
        requires
            self.field is ValueLen,
            0 < self.left <= u32::MAX,
            forall|rest: Seq<u8>| #[trigger] field_len(have@ + rest) == Some((n as nat, rest)),
        ensures
            self.answered(have@, step),
    {
        let next = HeaderParser::to_value_of(n, self.key, self.left, self.count, self.attributes);
        assert forall|rest: Seq<u8>, failure: Option<IoError>| #[trigger]
            next.outcome(rest, failure) == self.outlook(have@ + rest, failure) by {
            reveal(HeaderParser::outlook);
            assert(field_len(have@ + rest) == Some((n as nat, rest)));
        }
        ParseStep::Read(next)
    }

    /// These can be the bytes of the field that is being read.
    spec fn takes(&self, have: Seq<u8>) -> bool {
        match self.field {
            Field::Magic => have.len() <= 7,
            Field::Size => have.len() <= 8,
            Field::Key(len) => have.len() <= len,
            Field::Value(len) => have.len() <= len,
            _ => have.len() <= 6 && (have.len() > 2 ==> be_value(have.take(2)) >= 0xFFFF),
        }
    }

    /// Go on with the bytes of the field that is being read.
    fn with_bytes(self, have: Vec<u8>) -> (step: ParseStep)
        requires
            self.takes(have@),
        ensures
            self.answered(have@, step),
    {
        proof {
            use_type_invariant(&self);
        }
        let n: usize = have.len();
        match self.field {
            Field::Magic => if n < 7 {
                self.again(have)
            } else {
                self.take_magic(have)
            },
            Field::Size => if n < 8 {
                self.again(have)
            } else {
                self.take_size(have)
            },
            Field::Key(len) => if n < len {
                self.again(have)
            } else {
                self.take_key(have)
            },
            Field::Value(len) => if n < len {
                self.again(have)
            } else {
                self.take_value(have)
            },
            Field::Count => match whole_field(&have) {
                None => self.again(have),
                Some(value) => self.take_count(have, value),
            },
            Field::KeyLen => match whole_field(&have) {
                None => self.again(have),
                Some(value) => self.take_key_len(have, value),
            },
            Field::ValueLen => match whole_field(&have) {
                None => self.again(have),
                Some(value) => self.take_value_len(have, value),
            },
        }
    }

    /// Take more bytes.
    #[verifier::spinoff_prover]
    fn take(self, chunk: Vec<u8>) -> (step: ParseStep)
        requires
            1 <= chunk@.len() <= self.room(),
        ensures
            agrees(step, self, chunk@),
    {
        proof {
            use_type_invariant(&self);
        }
        let HeaderParser { field, have, left, key, attributes, count } = self;
        let mut have = have;
        let ghost begun = have@;
        write_bytes(&mut have, chunk.as_slice());
        let emptied = HeaderParser { field, have: Vec::new(), left, key, attributes, count };
        proof {
            if self.is_len() && begun.len() >= 2 {
                assert(have@.take(2) =~= begun.take(2));
            }
            assert forall|rest: Seq<u8>, failure: Option<IoError>| #[trigger]
                self.outcome(chunk@ + rest, failure) == emptied.outlook(have@ + rest, failure) by {
                lemma_same_outlook(self, emptied, have@ + rest, failure);
                assert(begun + (chunk@ + rest) =~= have@ + rest);
            }
        }
        emptied.with_bytes(have)
    }

    /// The stream ended here.
    fn end(self) -> (step: ParseStep)
        ensures
            concludes(step, self.outcome(Seq::empty(), None)),
    {
        proof {
            use_type_invariant(&self);
            assert(self.have@ + Seq::<u8>::empty() =~= self.have@);
            lemma_too_short(self.have@);
            reveal(HeaderParser::outlook);
        }
        let HeaderParser { field, have, left, key, attributes, count } = self;
        let stage = match field {
            Field::Magic => return ParseStep::Nothing,
            Field::Count => Stage::Count,
            Field::KeyLen => Stage::Key,
            Field::ValueLen => Stage::Value,
            Field::Size => Stage::Size,
            Field::Key(_) => {
                assert(have@.take(have@.len() as int) =~= have@);
                assert(have@.skip(have@.len() as int) =~= Seq::empty());
                match string_from_utf8(have) {
                    Ok(_) => Stage::Value,
                    Err(invalid) => return ParseStep::Failed(not_text(Stage::Key, invalid.reason)),
                }
            },
            Field::Value(_) => {
                assert(have@.take(have@.len() as int) =~= have@);
                assert(have@.skip(have@.len() as int) =~= Seq::empty());
                match string_from_utf8(have) {
                    Ok(_) => if left == 1 {
                        Stage::Size
                    } else {
                        Stage::Key
                    },
                    Err(invalid) => return ParseStep::Failed(not_text(Stage::Value, invalid.reason)),
                }
            },
        };
        ParseStep::Failed(
            FlowFileParsingError::Malformed {
                context: stage.context(),
                io_error: IoError::new(ErrorKind::UnexpectedEof, "unexpected end of file"),
            },
        )
    }

    /// The stream failed here.
    fn fail(self, failure: IoError) -> (step: ParseStep)
        ensures
            concludes(step, self.outcome(Seq::empty(), Some(failure))),
    {
        proof {
            use_type_invariant(&self);
            assert(self.have@ + Seq::<u8>::empty() =~= self.have@);
            lemma_too_short(self.have@);
            reveal(HeaderParser::outlook);
        }
        let stage = match self.field {
            Field::Magic => if failure.kind == ErrorKind::UnexpectedEof {
                return ParseStep::Nothing;
            } else {
                Stage::Magic
            },
            Field::Count => Stage::Count,
            Field::KeyLen => Stage::Key,
            Field::Key(_) => Stage::Key,
            Field::ValueLen => Stage::Value,
            Field::Value(_) => Stage::Value,
            Field::Size => Stage::Size,
        };
        ParseStep::Failed(FlowFileParsingError::Malformed { context: stage.context(), io_error: failure })
    }

    /// Go on after a read. One that was interrupted is tried again.
    pub fn step(self, event: ReadEvent) -> (step: ParseStep)
        requires
            event matches ReadEvent::Bytes(bytes) ==> 1 <= bytes@.len() <= self.room(),
        ensures
            match event {
                ReadEvent::Bytes(bytes) => agrees(step, self, bytes@),
                ReadEvent::End => concludes(step, self.outcome(Seq::empty(), None)),
                ReadEvent::Failed(failure) => if failure.kind == ErrorKind::Interrupted {
                    step == ParseStep::Read(self)
                } else {
                    concludes(step, self.outcome(Seq::empty(), Some(failure)))
                },
            },
    {
        match event {
            ReadEvent::Bytes(bytes) => self.take(bytes),
            ReadEvent::End => self.end(),
            ReadEvent::Failed(failure) => if failure.kind == ErrorKind::Interrupted {
                ParseStep::Read(self)
            } else {
                self.fail(failure)
            },
        }
    }
}

/// What becomes of a header does not depend on the bytes that a parser holds,
/// beyond those it is asked about.
proof fn lemma_same_outlook(one: HeaderParser, other: HeaderParser, bytes: Seq<u8>, failure: Option<IoError>)
    requires
        other == (HeaderParser { have: other.have, ..one }),
    ensures
        one.outlook(bytes, failure) == other.outlook(bytes, failure),
{
    reveal(HeaderParser::outlook);
}

/// Bytes that are no whole field length are none with nothing after them.
proof fn lemma_too_short(have: Seq<u8>)
    ensures
        whole_len(have) is None && have.len() < 6 && (have.len() > 2 ==> be_value(have.take(2)) >= 0xFFFF)
            ==> field_len(have) is None,
        field_len(Seq::empty()) is None,
{
}

/// What parsing a flow file out of a reader comes to: the flow file, if there
/// is one, and how many bytes it takes, or the error and the reader where that
/// leaves it.
pub type FlowFileParseResult<R> = core::result::Result<
    (Option<StreamedFlowFile<R>>, u64),
    (FlowFileParsingError, R),
>;

/// Parse a NiFi Flow File v3 from a reader.
///
/// # Errors
/// IO errors will propagate up. Otherwise this can return an error if the flowfile is malformed.
pub fn parse_flow_file_from_reader<R: Reader>(reader: R) -> (r: FlowFileParseResult<R>)
    ensures
        match parsed(reader.pending(), reader.failure()) {
            Parsed::Nothing => r matches Ok((None, count)) && count == 0,
            Parsed::Header { attributes, size, count, rest } => {
                &&& r matches Ok((Some(f), n))
                &&& n == count
                &&& f.header.attributes@ == attributes
                &&& f.header.size == size
                &&& f.contents.limit == size
                &&& f.contents.inner.pending() == rest
                &&& f.contents.inner.failure() == reader.failure()
                &&& f.returns
            },
            what => {
                &&& r matches Err((e, left))
                &&& tells(e, what, left.pending())
                &&& left.failure() == reader.failure()
            },
        },
{
    let ghost pending = reader.pending();
    let ghost failure = reader.failure();
    let mut source = reader;
    let mut parser = HeaderParser::new();
    loop
        invariant
            source.failure() == failure,
            pending == reader.pending(),
            failure == reader.failure(),
            parser.outcome(source.pending(), failure) == parsed(pending, failure),
        decreases source.pending().len(),
    {
        let ghost here = source.pending();
        let event = match read_some(&mut source, parser.wanted()) {
            Ok(chunk) => if chunk.len() == 0 {
                ReadEvent::End
            } else {
                ReadEvent::Bytes(chunk)
            },
            Err(e) => ReadEvent::Failed(e),
        };
        proof {
            let rest = source.pending();
            if event is Bytes {
                assert(parser.outcome(event->Bytes_0@ + rest, failure) == parsed(pending, failure));
            } else {
                assert(here =~= Seq::empty());
                assert(rest =~= Seq::empty());
            }
        }
        match parser.step(event) {
            ParseStep::Read(next) => {
                parser = next;
            },
            ParseStep::Nothing => return Ok((None, 0)),
            ParseStep::Header(header, count) => {
                let size: u64 = header.size;
                return Ok(
                    (Some(StreamedFlowFile { header, contents: Take { inner: source, limit: size }, returns: true }), count),
                );
            },
            ParseStep::Failed(e) => return Err((e, source)),
        }
    }
}

} // verus!
