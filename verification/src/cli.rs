//! The command line tool, but for its arguments, its files and JSON.

use vstd::prelude::*;
use vstd::string::*;

use crate::attributes::AttributeMap;
use crate::attributes::Attributes;
use crate::decode::lemma_rest_is_suffix;
use crate::decode::{decode_header, Outcome};
use crate::error::{Error, IoError};
use crate::flow_file::FlowFile;
use crate::flow_file::Model;
use crate::format::encodable;
use crate::io::{copy, read_all, read_up_to, Reader, Writer};
use crate::io::{copy_outcome, skip_up_to, spend, take_up_to};
use crate::limits::Limits;
use crate::sync::next_header;
use crate::sync::{at_end, next_refused};
use crate::text::{chars_of, decimal_text, find, quoted_text};
use crate::text::{decimal, find_from, quoted};

verus! {

/// Caps on a flow file's attributes and declared content size, as they stand
/// on the command line. Leaving one unset means no cap.
#[derive(Debug, Clone, Copy, PartialEq, Eq)]
pub struct LimitArgs {
    /// Reject headers declaring more than this many attributes.
    pub max_attributes: Option<usize>,
    /// Reject attribute keys or values longer than this, in bytes.
    pub max_attribute_len: Option<usize>,
    /// Reject headers whose attribute keys and values total more than this,
    /// in bytes.
    pub max_total_attribute_len: Option<usize>,
    /// Reject headers declaring more content than this, in bytes.
    pub max_content_len: Option<u64>,
}

impl vstd::std_specs::convert::FromSpecImpl<LimitArgs> for Limits {
    open spec fn obeys_from_spec() -> bool {
        true
    }

    open spec fn from_spec(args: LimitArgs) -> Limits {
        Limits {
            max_attributes: args.max_attributes,
            max_attribute_len: args.max_attribute_len,
            max_total_attribute_len: args.max_total_attribute_len,
            max_content_len: args.max_content_len,
        }
    }
}

impl From<LimitArgs> for Limits {
    fn from(args: LimitArgs) -> (limits: Limits) {
        let mut limits = Limits::unlimited();
        if let Some(n) = args.max_attributes {
            limits = limits.with_max_attributes(Some(n));
        }
        if let Some(n) = args.max_attribute_len {
            limits = limits.with_max_attribute_len(Some(n));
        }
        if let Some(n) = args.max_total_attribute_len {
            limits = limits.with_max_total_attribute_len(Some(n));
        }
        if let Some(n) = args.max_content_len {
            limits = limits.with_max_content_len(Some(n));
        }
        limits
    }
}

/// Why a command failed.
#[derive(Debug, PartialEq, Eq)]
pub enum CliError {
    /// An argument is not an attribute.
    Attribute(String),
    /// There is more content than allowed.
    Content {
        /// The most that is allowed, in bytes.
        limit: u64,
    },
    /// Reading or writing failed.
    Io(IoError),
    /// A flow file is not one, or is over the limits.
    Flow(Error),
}

impl CliError {
    /// What the error says.
    pub open spec fn text(self) -> Seq<char> {
        match self {
            CliError::Attribute(arg) => "invalid attribute "@ + quoted(arg@) + ": expected KEY=VALUE"@,
            CliError::Content { limit } => "content size exceeds the limit of "@ + decimal(limit as nat) + " bytes"@,
            CliError::Io(io) => io.text(),
            CliError::Flow(err) => err.text(),
        }
    }

    /// What the error says.
    pub fn message(&self) -> (text: String)
        ensures
            text@ == self.text(),
    {
        match self {
            CliError::Attribute(arg) => "invalid attribute ".to_owned().concat(
                quoted_text(arg.as_str()).as_str(),
            ).concat(": expected KEY=VALUE"),
            CliError::Content { limit } => "content size exceeds the limit of ".to_owned().concat(
                decimal_text(*limit).as_str(),
            ).concat(" bytes"),
            CliError::Io(io) => io.message(),
            CliError::Flow(err) => err.message(),
        }
    }
}

/// The key and the value that an argument names: what stands before its first
/// equals sign, and what stands after it.
pub open spec fn pair_of(arg: Seq<char>) -> Option<(Seq<char>, Seq<char>)> {
    match find_from(arg, '=', 0) {
        Some(i) => Some((arg.take(i), arg.skip(i + 1))),
        None => None,
    }
}

/// The attributes that some arguments name, a later one in place of an earlier
/// one with the same key, or the first argument that names none.
pub open spec fn attributes_of(args: Seq<String>) -> core::result::Result<AttributeMap, Seq<char>>
    decreases args.len(),
{
    if args.len() == 0 {
        Ok(Map::empty())
    } else {
        match attributes_of(args.drop_last()) {
            Err(bad) => Err(bad),
            Ok(attributes) => match pair_of(args.last()@) {
                Some((key, value)) => Ok(attributes.insert(key, value)),
                None => Err(args.last()@),
            },
        }
    }
}

/// An argument that is no attribute stays one, whatever follows it.
proof fn lemma_bad_argument(args: Seq<String>, i: int)
    requires
        0 <= i <= args.len(),
        attributes_of(args.take(i)) is Err,
    ensures
        attributes_of(args) == attributes_of(args.take(i)),
    decreases args.len() - i,
{
    if i < args.len() {
        assert(args.take(i + 1).drop_last() =~= args.take(i));
        lemma_bad_argument(args, i + 1);
    } else {
        assert(args.take(i) =~= args);
    }
}

/// The key and the value that an argument names.
pub fn split_pair(arg: &str) -> (pair: Option<(String, String)>)
    ensures
        match pair {
            Some((key, value)) => pair_of(arg@) == Some((key@, value@)),
            None => pair_of(arg@) is None,
        },
{
    let chars = chars_of(arg);
    let end: usize = chars.len();
    match find(&chars, '=') {
        Some(i) => {
            let key = arg.substring_char(0, i).to_owned();
            let value = arg.substring_char(i + 1, end).to_owned();
            assert(key@ =~= arg@.take(i as int));
            assert(value@ =~= arg@.skip(i + 1));
            Some((key, value))
        },
        None => None,
    }
}

/// The attributes that the arguments name, each as `KEY=VALUE`.
pub fn parse_attributes(args: &Vec<String>) -> (r: core::result::Result<Attributes, CliError>)
    ensures
        match attributes_of(args@) {
            Ok(map) => r matches Ok(attributes) && attributes@ == map,
            Err(bad) => r matches Err(CliError::Attribute(arg)) && arg@ == bad,
        },
{
    let mut attributes = Attributes::new();
    let mut i: usize = 0;
    assert(args@.take(0) =~= Seq::empty());
    while i < args.len()
        invariant
            i <= args@.len(),
            attributes_of(args@.take(i as int)) matches Ok(map) && map == attributes@,
        decreases args@.len() - i,
    {
        proof {
            assert(args@.take(i + 1).drop_last() =~= args@.take(i as int));
        }
        match split_pair(args[i].as_str()) {
            Some((key, value)) => {
                attributes.insert(key, value);
            },
            None => {
                proof {
                    lemma_bad_argument(args@, i + 1);
                }
                return Err(CliError::Attribute(args[i].clone()));
            },
        }
        i = i + 1;
    }
    assert(args@.take(i as int) =~= args@);
    Ok(attributes)
}

/// One byte past a limit, where there is such a number.
pub open spec fn one_past(limit: u64) -> u64 {
    if limit < u64::MAX {
        (limit + 1) as u64
    } else {
        limit
    }
}

/// What is left of a stream that was read to the end, but not further than one
/// byte past `max`.
pub open spec fn left_over(pending: Seq<u8>, max: Option<u64>) -> Seq<u8> {
    match max {
        None => Seq::empty(),
        Some(limit) => skip_up_to(pending, one_past(limit)),
    }
}

/// What reading to the end comes to, where no more than `max` bytes are
/// allowed. One byte past the limit is all it takes to know it was exceeded.
pub open spec fn within(pending: Seq<u8>, failure: Option<IoError>, max: Option<u64>) -> core::result::Result<
    Seq<u8>,
    CliError,
> {
    match max {
        None => match failure {
            Some(e) => Err(CliError::Io(e)),
            None => Ok(pending),
        },
        Some(limit) => {
            let most = one_past(limit);
            if most > limit && pending.len() > limit {
                Err(CliError::Content { limit })
            } else if pending.len() < most && failure is Some {
                Err(CliError::Io(failure->0))
            } else {
                Ok(take_up_to(pending, most))
            }
        },
    }
}

/// Read to the end of `reader`, refusing to buffer more than `max` bytes.
///
/// The limit is a guard, so it has to stop the read rather than judge it
/// afterwards. At most one byte past it is taken.
pub fn read_within<R: Reader>(reader: &mut R, max: Option<u64>) -> (r: core::result::Result<Vec<u8>, CliError>)
    ensures
        match within((*old(reader)).pending(), (*old(reader)).failure(), max) {
            Ok(bytes) => r matches Ok(b) && b@ == bytes,
            Err(e) => r == Err::<Vec<u8>, CliError>(e),
        },
        (*final(reader)).pending() == left_over((*old(reader)).pending(), max),
        (*final(reader)).failure() == (*old(reader)).failure(),
{
    match max {
        None => match read_all(reader) {
            Ok(bytes) => Ok(bytes),
            Err(e) => Err(CliError::Io(e)),
        },
        Some(limit) => {
            let most: u64 = limit.saturating_add(1);
            match read_up_to(reader, most) {
                Ok(bytes) => {
                    if bytes.len() as u64 > limit {
                        return Err(CliError::Content { limit });
                    }
                    Ok(bytes)
                },
                Err(e) => Err(CliError::Io(e)),
            }
        },
    }
}

/// What creating a flow file comes to. The attributes come first, so they are
/// judged before a byte of content is read.
pub open spec fn created(
    args: Seq<String>,
    limits: Limits,
    pending: Seq<u8>,
    failure: Option<IoError>,
    r: core::result::Result<Vec<u8>, CliError>,
) -> bool {
    match attributes_of(args) {
        Err(bad) => r matches Err(CliError::Attribute(arg)) && arg@ == bad,
        Ok(attributes) => match limits.verdict(attributes, 0) {
            Err(e) => r == Err::<Vec<u8>, CliError>(CliError::Flow(e)),
            Ok(_) => match within(pending, failure, limits.max_content_len) {
                Err(e) => r == Err::<Vec<u8>, CliError>(e),
                Ok(content) => {
                    &&& r matches Ok(bytes)
                    &&& bytes@ == (Model { size: content.len() as u64, attributes, content }).wire()
                },
            },
        },
    }
}

/// Create a flow file from attributes on the command line and the content that
/// `reader` gives, and serialize it.
pub fn create<R: Reader>(args: &Vec<String>, limits: Limits, reader: &mut R) -> (r: core::result::Result<
    Vec<u8>,
    CliError,
>)
    requires
        attributes_of(args@) matches Ok(attributes) ==> encodable(attributes),
    ensures
        created(args@, limits, (*old(reader)).pending(), (*old(reader)).failure(), r),
        if attributes_of(args@) matches Ok(attributes) && limits.verdict(attributes, 0) is Ok {
            &&& (*final(reader)).pending() == left_over((*old(reader)).pending(), limits.max_content_len)
            &&& (*final(reader)).failure() == (*old(reader)).failure()
        } else {
            *final(reader) == *old(reader)
        },
{
    let attributes = match parse_attributes(args) {
        Ok(attributes) => attributes,
        Err(e) => return Err(e),
    };
    if let Err(e) = limits.check(&attributes, 0) {
        return Err(CliError::Flow(e));
    }
    match read_within(reader, limits.max_content_len()) {
        Ok(content) => {
            let flow_file = FlowFile { size: content.len() as u64, attributes, content };
            Ok(flow_file.to_bytes())
        },
        Err(e) => Err(e),
    }
}

/// Check a flow file that no parser made, and serialize it.
///
/// A flow file that was decoded from JSON never went through a parser, so the
/// limits are applied to it here. Otherwise they would mean something on one
/// input format and nothing on the other.
pub fn checked_bytes(flow_file: &FlowFile<Vec<u8>>, limits: Limits) -> (r: core::result::Result<Vec<u8>, CliError>)
    requires
        flow_file@.serializable(),
    ensures
        match limits.verdict(flow_file@.attributes, flow_file@.size) {
            Ok(_) => r matches Ok(bytes) && bytes@ == flow_file@.wire(),
            Err(e) => r == Err::<Vec<u8>, CliError>(CliError::Flow(e)),
        },
{
    match limits.check(&flow_file.attributes, flow_file.size) {
        Ok(_) => Ok(flow_file.to_bytes()),
        Err(e) => Err(CliError::Flow(e)),
    }
}

/// Stream the content to `writer`, verifying that it was complete.
pub fn copy_content<R: Reader, W: Writer>(flow_file: FlowFile<R>, writer: &mut W) -> (r: core::result::Result<
    (),
    CliError,
>)
    ensures
        ({
            let (bytes, copied) = copy_outcome(
                flow_file.content.pending(),
                flow_file.content.failure(),
                u64::MAX,
                (*old(writer)).budget(),
            );
            &&& (*final(writer)).written() == (*old(writer)).written() + bytes
            &&& match copied {
                Err(e) => r == Err::<(), CliError>(CliError::Io(e)),
                Ok(n) => if n == flow_file.size {
                    r is Ok
                } else {
                    r == Err::<(), CliError>(
                        CliError::Flow(Error::SizeMismatch { expected: flow_file.size, actual: n }),
                    )
                },
            }
        }),
{
    let expected: u64 = flow_file.size;
    let mut content = flow_file.content;
    match copy(&mut content, u64::MAX, writer) {
        Err(e) => Err(CliError::Io(e)),
        Ok(copied) => if copied != expected {
            Err(CliError::Flow(Error::SizeMismatch { expected, actual: copied }))
        } else {
            Ok(())
        },
    }
}

/// What writing out the contents of a stream of flow files comes to: `out` is
/// what goes to a writer with this budget, and `r` how it ends.
pub open spec fn extracted(
    pending: Seq<u8>,
    failure: Option<IoError>,
    limits: Limits,
    budget: Option<(nat, IoError)>,
    out: Seq<u8>,
    r: core::result::Result<(), CliError>,
) -> bool
    decreases pending.len(),
{
    if at_end(pending, failure) {
        out.len() == 0 && r is Ok
    } else {
        match decode_header(pending, limits) {
            Outcome::Refused { .. } => {
                &&& out.len() == 0
                &&& r matches Err(CliError::Flow(e))
                &&& next_refused(pending, failure, limits, e)
            },
            Outcome::Accepted { size, rest, .. } => {
                let (bytes, copied) = copy_outcome(rest, failure, size, budget);
                match copied {
                    Err(e) => out == bytes && r == Err::<(), CliError>(CliError::Io(e)),
                    Ok(n) => if n != size {
                        out == bytes && r == Err::<(), CliError>(
                            CliError::Flow(Error::SizeMismatch { expected: size, actual: n }),
                        )
                    } else {
                        &&& bytes.is_prefix_of(out)
                        &&& rest.len() < pending.len()
                        &&& extracted(
                            rest.skip(size as int),
                            failure,
                            limits,
                            spend(budget, size as nat),
                            out.skip(size as int),
                            r,
                        )
                    },
                }
            },
        }
    }
}

/// Write the raw content of every flow file in a stream to `writer`.
pub fn content<R: Reader, W: Writer>(reader: R, limits: Limits, writer: &mut W) -> (r: core::result::Result<
    (),
    CliError,
>)
    ensures
        ({
            let before = (*old(writer)).written();
            let after = (*final(writer)).written();
            &&& before.is_prefix_of(after)
            &&& extracted(
                reader.pending(),
                reader.failure(),
                limits,
                (*old(writer)).budget(),
                after.skip(before.len() as int),
                r,
            )
        }),
{
    let mut source = reader;
    let ghost pending = source.pending();
    let ghost failure = source.failure();
    let ghost budget = (*writer).budget();
    let ghost before = (*writer).written();
    let ghost mut so_far: Seq<u8> = Seq::empty();
    proof {
        assert(before =~= before + so_far);
        assert forall|out: Seq<u8>, r: core::result::Result<(), CliError>| #[trigger]
            extracted(pending, failure, limits, budget, out, r) implies extracted(
            pending,
            failure,
            limits,
            budget,
            so_far + out,
            r,
        ) by {
            assert(so_far + out =~= out);
        }
    }
    loop
        invariant
            source.failure() == failure,
            failure == reader.failure(),
            pending == reader.pending(),
            budget == (*old(writer)).budget(),
            before == (*old(writer)).written(),
            (*writer).written() == before + so_far,
            forall|out: Seq<u8>, r: core::result::Result<(), CliError>| #[trigger]
                extracted(source.pending(), failure, limits, (*writer).budget(), out, r) ==> extracted(
                    pending,
                    failure,
                    limits,
                    budget,
                    so_far + out,
                    r,
                ),
        decreases source.pending().len(),
    {
        let ghost here = source.pending();
        let ghost room = (*writer).budget();
        let ghost done = so_far;
        match next_header(&mut source, limits) {
            Err(e) => {
                let r: core::result::Result<(), CliError> = Err(CliError::Flow(e));
                assert(extracted(here, failure, limits, room, Seq::empty(), r));
                assert((*writer).written().skip(before.len() as int) =~= so_far + Seq::<u8>::empty());
                return r;
            },
            Ok(None) => {
                let r: core::result::Result<(), CliError> = Ok(());
                assert(extracted(here, failure, limits, room, Seq::empty(), r));
                assert((*writer).written().skip(before.len() as int) =~= so_far + Seq::<u8>::empty());
                return r;
            },
            Ok(Some((_, size))) => {
                let ghost rest = source.pending();
                let ghost (bytes, copied) = copy_outcome(rest, failure, size, room);
                proof {
                    lemma_rest_is_suffix(here, limits);
                }
                match copy(&mut source, size, writer) {
                    Err(e) => {
                        let r: core::result::Result<(), CliError> = Err(CliError::Io(e));
                        assert(extracted(here, failure, limits, room, bytes, r));
                        assert((*writer).written().skip(before.len() as int) =~= so_far + bytes);
                        return r;
                    },
                    Ok(n) => {
                        if n != size {
                            let r: core::result::Result<(), CliError> = Err(
                                CliError::Flow(Error::SizeMismatch { expected: size, actual: n }),
                            );
                            assert(extracted(here, failure, limits, room, bytes, r));
                            assert((*writer).written().skip(before.len() as int) =~= so_far + bytes);
                            return r;
                        }
                        proof {
                            so_far = done + bytes;
                            assert((*writer).written() =~= before + so_far);
                            assert(source.pending() =~= rest.skip(size as int));
                            assert forall|out: Seq<u8>, r: core::result::Result<(), CliError>| #[trigger]
                                extracted(
                                    source.pending(),
                                    failure,
                                    limits,
                                    (*writer).budget(),
                                    out,
                                    r,
                                ) implies extracted(pending, failure, limits, budget, so_far + out, r) by {
                                assert((bytes + out).skip(size as int) =~= out);
                                assert(extracted(here, failure, limits, room, bytes + out, r));
                                assert(done + (bytes + out) =~= so_far + out);
                            }
                        }
                    },
                }
            },
        }
    }
}

} // verus!
