//! The command line tool.

use vstd::prelude::*;

use crate::attributes::{AttributeMap, Entries};
use crate::attributes::Attributes;
use crate::cli::{attributes_of, extracted, pair_of};
use crate::cli::{
    checked_bytes, content, copy_content, create, parse_attributes, read_within, split_pair, CliError, LimitArgs,
};
use crate::error::{Error, IoError};
use crate::flow_file::FlowFile;
use crate::io::{Reader, Writer};
use crate::limits::Limits;
use super::bounds::check_complains;
use super::failures::says_one;
use super::layout::{head, in_order, lemma_head, size_of_text};
use super::numbers::{lemma_decimal, lemma_find};
use super::parsing::{attributes_allowed, lemma_spelled, size_allowed, spells};
use super::streams::{has_room_for, header_allowed};

verus! {

/// `arg` is `key`, an equals sign and `value`, and the key has no equals sign
/// in it.
pub open spec fn is_pair(arg: Seq<char>, key: Seq<char>, value: Seq<char>) -> bool {
    &&& arg == key + seq!['='] + value
    &&& forall|i: int| 0 <= i < key.len() ==> #[trigger] key[i] != '='
}

/// There is no equals sign in `arg`.
pub open spec fn no_pair(arg: Seq<char>) -> bool {
    forall|i: int| 0 <= i < arg.len() ==> #[trigger] arg[i] != '='
}

proof fn lemma_pair(arg: Seq<char>)
    ensures
        match pair_of(arg) {
            Some((key, value)) => is_pair(arg, key, value),
            None => no_pair(arg),
        },
{
    lemma_find(arg, '=', 0);
    if let Some((key, value)) = pair_of(arg) {
        assert(arg =~= key + seq!['='] + value);
        assert forall|i: int| 0 <= i < key.len() implies #[trigger] key[i] != '=' by {
            assert(key[i] == arg[i]);
        }
    }
}

/// Joining the two parts of an argument with an equals sign gives the argument
/// back, and the first part has none in it. An argument has no parts only where
/// it has no equals sign.
pub proof fn law_an_argument_is_its_two_parts(arg: &str, pair: Option<(String, String)>)
    requires
        call_ensures(split_pair, (arg,), pair),
    ensures
        match pair {
            Some((key, value)) => {
                &&& arg@ == key@ + seq!['='] + value@
                &&& forall|i: int| 0 <= i < key@.len() ==> #[trigger] key@[i] != '='
            },
            None => forall|i: int| 0 <= i < arg@.len() ==> #[trigger] arg@[i] != '=',
        },
{
    lemma_pair(arg@);
}

/// The pair with this key that stands last among some arguments names the
/// attribute, and no attribute comes from elsewhere.
pub open spec fn named_by(args: Seq<String>, m: AttributeMap) -> bool {
    &&& forall|key: Seq<char>| #[trigger]
        m.dom().contains(key) ==> exists|i: int| 0 <= i < args.len() && is_pair(#[trigger] args[i]@, key, m[key])
            && (forall|j: int, v: Seq<char>| i < j < args.len() ==> !#[trigger] is_pair(args[j]@, key, v))
    &&& forall|i: int, key: Seq<char>, value: Seq<char>|
        0 <= i < args.len() && #[trigger] is_pair(args[i]@, key, value) ==> m.dom().contains(key)
}

proof fn lemma_one_pair(arg: Seq<char>, key: Seq<char>, value: Seq<char>)
    requires
        is_pair(arg, key, value),
    ensures
        pair_of(arg) == Some((key, value)),
{
    lemma_find(arg, '=', 0);
    assert(arg[key.len() as int] == '=');
    let at = crate::text::find_from(arg, '=', 0)->0;
    if at < key.len() {
        assert(arg[at] == key[at]);
    }
    assert(at == key.len());
    assert(arg.take(at) =~= key);
    assert(arg.skip(at + 1) =~= value);
}

proof fn lemma_named(args: Seq<String>)
    ensures
        match attributes_of(args) {
            Ok(m) => named_by(args, m) && m.dom().finite() && forall|i: int| 0 <= i < args.len() ==> !no_pair(#[trigger] args[i]@),
            Err(bad) => exists|i: int|
                0 <= i < args.len() && #[trigger] args[i]@ == bad && no_pair(bad) && forall|j: int|
                    0 <= j < i ==> !no_pair(#[trigger] args[j]@),
        },
    decreases args.len(),
{
    if args.len() > 0 {
        let less = args.drop_last();
        let last = args.len() - 1;
        lemma_named(less);
        lemma_pair(args[last]@);
        match attributes_of(less) {
            Err(bad) => {
                let i = choose|i: int|
                    0 <= i < less.len() && #[trigger] less[i]@ == bad && no_pair(bad) && forall|j: int|
                        0 <= j < i ==> !no_pair(#[trigger] less[j]@);
                assert(args[i]@ == bad);
                assert forall|j: int| 0 <= j < i implies !no_pair(#[trigger] args[j]@) by {
                    assert(less[j] == args[j]);
                }
            },
            Ok(before) => {
                assert forall|i: int| 0 <= i < last implies !no_pair(#[trigger] args[i]@) by {
                    assert(less[i] == args[i]);
                }
                match pair_of(args[last]@) {
                    None => {
                        assert(args[last]@ == args.last()@);
                    },
                    Some((key, value)) => {
                        let m = before.insert(key, value);
                        assert(args[last]@[key.len() as int] == '=');
                        assert forall|k: Seq<char>| #[trigger] m.dom().contains(k) implies exists|i: int|
                            0 <= i < args.len() && is_pair(#[trigger] args[i]@, k, m[k]) && (forall|j: int, v: Seq<char>|
                                i < j < args.len() ==> !#[trigger] is_pair(args[j]@, k, v)) by {
                            if k == key {
                                assert(is_pair(args[last]@, k, m[k]));
                            } else {
                                assert(before.dom().contains(k));
                                let i = choose|i: int|
                                    0 <= i < less.len() && is_pair(#[trigger] less[i]@, k, before[k]) && (forall|j: int, v: Seq<char>|
                                        i < j < less.len() ==> !#[trigger] is_pair(less[j]@, k, v));
                                assert(is_pair(args[i]@, k, m[k]));
                                assert forall|j: int, v: Seq<char>| i < j < args.len() implies !#[trigger] is_pair(args[j]@, k, v) by {
                                    if j < last {
                                        assert(less[j] == args[j]);
                                        assert(!is_pair(less[j]@, k, v));
                                    } else if is_pair(args[j]@, k, v) {
                                        lemma_one_pair(args[j]@, k, v);
                                    }
                                }
                            }
                        }
                        assert forall|i: int, k: Seq<char>, v: Seq<char>|
                            0 <= i < args.len() && #[trigger] is_pair(args[i]@, k, v) implies m.dom().contains(k) by {
                            if i < last {
                                assert(less[i] == args[i]);
                                assert(is_pair(less[i]@, k, v));
                            } else {
                                lemma_one_pair(args[i]@, k, v);
                            }
                        }
                        assert(named_by(args, m));
                    },
                }
            },
        }
    }
}

/// Arguments name attributes if each of them has an equals sign, and then what
/// the last one with a key says counts. Otherwise the first argument without
/// one is told.
pub proof fn law_arguments_name_attributes(args: &Vec<String>, r: core::result::Result<Attributes, CliError>)
    requires
        call_ensures(parse_attributes, (args,), r),
    ensures
        r is Ok <==> forall|i: int| 0 <= i < args@.len() ==> !no_pair(#[trigger] args@[i]@),
        r matches Ok(attributes) ==> named_by(args@, attributes@),
        r matches Err(e) ==> {
            &&& e matches CliError::Attribute(arg)
            &&& exists|i: int|
                0 <= i < args@.len() && #[trigger] args@[i]@ == arg@ && no_pair(arg@) && forall|j: int|
                    0 <= j < i ==> !no_pair(#[trigger] args@[j]@)
        },
{
    lemma_named(args@);
}

/// What may come of reading at most so much: all of it if it is no more than
/// that and the source ends well, an answer with the limit if it is more, and
/// otherwise the failure that the source ends in.
pub open spec fn read_at_most(
    pending: Seq<u8>,
    failure: Option<IoError>,
    max: Option<u64>,
    r: core::result::Result<Vec<u8>, CliError>,
) -> bool {
    match max {
        None => match failure {
            Some(e) => r == Err::<Vec<u8>, CliError>(CliError::Io(e)),
            None => r matches Ok(bytes) && bytes@ == pending,
        },
        Some(limit) => if limit == u64::MAX {
            pending.len() < u64::MAX && failure is None ==> (r matches Ok(bytes) && bytes@ == pending)
        } else if pending.len() > limit {
            r matches Err(CliError::Content { limit: told }) && told == limit
        } else {
            match failure {
                Some(e) => r == Err::<Vec<u8>, CliError>(CliError::Io(e)),
                None => r matches Ok(bytes) && bytes@ == pending,
            }
        },
    }
}

/// A content is read whole if it is within its limit, and refused with that
/// limit if it is above. No more is taken of it than one byte past the limit.
pub proof fn law_a_content_is_read_within_its_limit<R: Reader>(
    reader: &mut R,
    max: Option<u64>,
    r: core::result::Result<Vec<u8>, CliError>,
)
    requires
        call_ensures(read_within::<R>, (reader, max), r),
    ensures
        read_at_most((*old(reader)).pending(), (*old(reader)).failure(), max, r),
        max matches Some(limit) ==> (limit < u64::MAX && (*old(reader)).pending().len() > limit ==> (*final(reader)).pending()
            == (*old(reader)).pending().skip(limit + 1)),
        max matches Some(limit) ==> ((*old(reader)).pending().len() <= limit ==> (*final(reader)).pending().len() == 0),
        max is None ==> (*final(reader)).pending().len() == 0,
        (*final(reader)).failure() == (*old(reader)).failure(),
{
}

/// Creating a flow file answers with the bytes of one whose attributes are those
/// that the arguments name and whose content is all that was read. Attributes
/// above the limits, and a content above its limit, are refused.
pub proof fn law_a_created_flow_file_holds_what_was_given<R: Reader>(
    args: &Vec<String>,
    limits: Limits,
    reader: &mut R,
    r: core::result::Result<Vec<u8>, CliError>,
) -> (entries: Entries)
    requires
        call_ensures(create::<R>, (args, limits, reader), r),
        (*old(reader)).pending().len() < u64::MAX,
    ensures
        r matches Ok(bytes) ==> {
            &&& exists|m: AttributeMap| #[trigger] named_by(args@, m) && in_order(entries, m)
            &&& bytes@ == head(entries, (*old(reader)).pending().len()) + (*old(reader)).pending()
            &&& attributes_allowed(entries, limits)
            &&& limits.max_content_len matches Some(limit) ==> (*old(reader)).pending().len() <= limit
            &&& (*old(reader)).failure() is None
            &&& forall|i: int| 0 <= i < args@.len() ==> !no_pair(#[trigger] args@[i]@)
        },
        (exists|i: int| 0 <= i < args@.len() && no_pair(#[trigger] args@[i]@)) ==> {
            &&& r matches Err(CliError::Attribute(arg))
            &&& no_pair(arg@)
            &&& *final(reader) == *old(reader)
        },
        (forall|i: int| 0 <= i < args@.len() ==> !no_pair(#[trigger] args@[i]@)) ==> {
            let small_enough = limits.max_content_len matches Some(limit) ==> (*old(reader)).pending().len() <= limit;
            &&& exists|m: AttributeMap| #[trigger] named_by(args@, m) && in_order(entries, m)
            &&& !attributes_allowed(entries, limits) ==> (r matches Err(CliError::Flow(_)))
            &&& !attributes_allowed(entries, limits) ==> *final(reader) == *old(reader)
            &&& attributes_allowed(entries, limits) && small_enough && (*old(reader)).failure() is None ==> r is Ok
            &&& attributes_allowed(entries, limits) && !small_enough ==> r == Err::<Vec<u8>, CliError>(
                CliError::Content { limit: limits.max_content_len->0 },
            )
        },
{
    lemma_named(args@);
    let pending = (*old(reader)).pending();
    if let Ok(m) = attributes_of(args@) {
        let entries = lemma_head(m, pending.len() as u64);
        super::bounds::lemma_verdict(m, entries, 0, limits);
        assert(named_by(args@, m));
        entries
    } else {
        Seq::empty()
    }
}

/// A flow file that no parser made is written if nothing about it is above the
/// limits, and refused for what is.
pub proof fn law_an_unparsed_flow_file_is_checked(
    f: &FlowFile<Vec<u8>>,
    limits: Limits,
    r: core::result::Result<Vec<u8>, CliError>,
) -> (entries: Entries)
    requires
        f.attributes@.dom().finite(),
        f.attributes@.len() <= usize::MAX,
        forall|k: Seq<char>| #[trigger] f.attributes@.dom().contains(k) ==> size_of_text(k) <= usize::MAX && size_of_text(f.attributes@[k]) <= usize::MAX,
        call_ensures(checked_bytes, (f, limits), r),
    ensures
        in_order(entries, f.attributes@),
        match r {
            Ok(bytes) => {
                &&& attributes_allowed(entries, limits)
                &&& size_allowed(f.size, limits)
                &&& bytes@ == head(entries, f.size as nat) + f.content@
            },
            Err(e) => {
                &&& e matches CliError::Flow(err)
                &&& !attributes_allowed(entries, limits) ==> check_complains(err, entries, limits)
                &&& attributes_allowed(entries, limits) ==> {
                    &&& err matches Error::ContentTooLarge { size, limit }
                    &&& size == f.size
                    &&& limits.max_content_len == Some(limit)
                    &&& size > limit
                }
            },
        },
{
    let entries = lemma_head(f.attributes@, f.size);
    super::bounds::lemma_verdict(f.attributes@, entries, f.size, limits);
    entries
}

/// What is left unset on the command line is no limit, and what is set is that
/// limit.
pub proof fn law_limits_come_from_the_command_line(args: LimitArgs, limits: Limits)
    requires
        call_ensures(<Limits as From<LimitArgs>>::from, (args,), limits),
    ensures
        limits.max_attributes == args.max_attributes,
        limits.max_attribute_len == args.max_attribute_len,
        limits.max_total_attribute_len == args.max_total_attribute_len,
        limits.max_content_len == args.max_content_len,
{
}

/// The answer to too much content names the limit.
pub proof fn law_too_much_content_names_the_limit(err: &CliError, text: String)
    requires
        call_ensures(CliError::message, (err,), text),
    ensures
        *err matches CliError::Content { limit } ==> says_one(
            text@,
            "content size exceeds the limit of "@,
            limit as nat,
            " bytes"@,
        ),
{
    if let CliError::Content { limit } = *err {
        lemma_decimal(limit as nat);
    }
}

/// A content is copied out whole, and it is an error if it is not of the size
/// that is declared. A failure of either side is told.
pub proof fn law_a_content_is_copied_out<R: Reader, W: Writer>(
    f: FlowFile<R>,
    writer: &mut W,
    r: core::result::Result<(), CliError>,
)
    requires
        f.content.pending().len() < u64::MAX,
        call_ensures(copy_content::<R, W>, (f, writer), r),
    ensures
        has_room_for((*old(writer)).budget(), f.content.pending().len()) ==> {
            &&& (*final(writer)).written() == (*old(writer)).written() + f.content.pending()
            &&& match f.content.failure() {
                Some(e) => r == Err::<(), CliError>(CliError::Io(e)),
                None => {
                    &&& f.content.pending().len() == f.size ==> r is Ok
                    &&& f.content.pending().len() != f.size ==> {
                        &&& r matches Err(CliError::Flow(Error::SizeMismatch { expected, actual }))
                        &&& expected == f.size
                        &&& actual == f.content.pending().len()
                    }
                },
            }
        },
        (*old(writer)).budget() matches Some((room, refusal)) ==> (room < f.content.pending().len() ==> r == Err::<(), CliError>(
            CliError::Io(refusal),
        )),
{
}

/// One flow file of a stream: what its header says, and its content.
pub struct Piece {
    pub entries: Entries,
    pub size: u64,
    pub content: Seq<u8>,
}

/// `bytes` are these flow files one after the other, each with as much content
/// as it declares.
pub open spec fn streams(bytes: Seq<u8>, files: Seq<Piece>) -> bool
    decreases files.len(),
{
    if files.len() == 0 {
        bytes.len() == 0
    } else {
        exists|rest: Seq<u8>| #[trigger]
            spells(bytes, files[0].entries, files[0].size, files[0].content + rest) && files[0].content.len() == files[0].size
                && streams(rest, files.drop_first())
    }
}

/// The contents of some flow files one after the other.
pub open spec fn joined(files: Seq<Piece>) -> Seq<u8>
    decreases files.len(),
{
    if files.len() == 0 {
        Seq::empty()
    } else {
        files[0].content + joined(files.drop_first())
    }
}

#[verifier::spinoff_prover]
#[verifier::rlimit(60)]
proof fn lemma_joined(
    bytes: Seq<u8>,
    files: Seq<Piece>,
    limits: Limits,
    budget: Option<(nat, IoError)>,
    out: Seq<u8>,
    r: core::result::Result<(), CliError>,
)
    requires
        streams(bytes, files),
        forall|i: int| 0 <= i < files.len() ==> header_allowed((#[trigger] files[i]).entries, files[i].size, limits),
        extracted(bytes, None, limits, budget, out, r),
        has_room_for(budget, joined(files).len()),
    ensures
        r is Ok,
        out == joined(files),
    decreases files.len(),
{
    if files.len() == 0 {
        assert(out =~= joined(files));
    } else {
        let f = files[0];
        let others = files.drop_first();
        let rest = choose|rest: Seq<u8>| #[trigger]
            spells(bytes, files[0].entries, files[0].size, files[0].content + rest) && files[0].content.len() == files[0].size
                && streams(rest, files.drop_first());
        let behind = f.content + rest;
        assert(header_allowed(files[0].entries, files[0].size, limits));
        lemma_spelled(bytes, f.entries, f.size, behind, limits);
        assert(bytes.len() >= 7);
        assert(behind.skip(f.size as int) =~= rest);
        assert(behind.take(f.size as int) =~= f.content);
        if behind.len() == f.size {
            assert(behind =~= f.content);
        }
        let (copied, how) = crate::io::copy_outcome(behind, None, f.size, budget);
        assert(copied == f.content && how == Ok::<u64, IoError>(f.size));
        assert forall|i: int| 0 <= i < others.len() implies header_allowed((#[trigger] others[i]).entries, others[i].size, limits) by {
            assert(others[i] == files[i + 1]);
        }
        lemma_joined(rest, others, limits, crate::io::spend(budget, f.size as nat), out.skip(f.size as int), r);
        assert(out =~= f.content + out.skip(f.size as int));
    }
}

/// Writing out the contents of a stream writes the content of each of its flow
/// files, in their order and with nothing between them.
pub proof fn law_the_contents_of_a_stream_come_out_in_order<R: Reader, W: Writer>(
    reader: R,
    limits: Limits,
    writer: &mut W,
    files: Seq<Piece>,
    r: core::result::Result<(), CliError>,
)
    requires
        streams(reader.pending(), files),
        reader.failure() is None,
        forall|i: int| 0 <= i < files.len() ==> header_allowed((#[trigger] files[i]).entries, files[i].size, limits),
        has_room_for((*old(writer)).budget(), joined(files).len()),
        call_ensures(content::<R, W>, (reader, limits, writer), r),
    ensures
        r is Ok,
        (*final(writer)).written() == (*old(writer)).written() + joined(files),
{
    let before = (*old(writer)).written();
    let after = (*final(writer)).written();
    let out = after.skip(before.len() as int);
    lemma_joined(reader.pending(), files, limits, (*old(writer)).budget(), out, r);
    assert(after =~= before + out);
}

/// Each answer of the tool names what it is about.
pub proof fn law_an_answer_names_what_it_is_about(err: &CliError, text: String, io: &IoError, io_text: String, flow: &Error, flow_text: String)
    requires
        call_ensures(CliError::message, (err,), text),
        call_ensures(IoError::message, (io,), io_text),
        call_ensures(Error::message, (flow,), flow_text),
    ensures
        *err == CliError::Io(*io) ==> text@ == io_text@,
        *err == CliError::Flow(*flow) ==> text@ == flow_text@,
        *err matches CliError::Attribute(arg) ==> text@ == "invalid attribute "@ + crate::text::quoted(arg@) + ": expected KEY=VALUE"@,
{
}

} // verus!
