//! Flow files described in JSON.

use vstd::prelude::*;

use crate::error::Error;
use crate::flow_file::FlowFile;
use crate::io::Reader;
use crate::json::{base64_bytes, base64_text, Base64Error, Repr, ReprError, StreamingFlowFile};
use crate::text::decimal;
use super::failures::{says_one, says_two};
use super::numbers::lemma_decimal;

verus! {

/// A flow file is described by its size, its attributes and its content in
/// base64, and comes back from that description as it was.
pub proof fn law_a_description_gives_the_flow_file_back(
    f: &FlowFile<Vec<u8>>,
    repr: Repr,
    r: core::result::Result<FlowFile<Vec<u8>>, ReprError>,
)
    requires
        f.size == f.content@.len(),
        call_ensures(FlowFile::<Vec<u8>>::to_repr, (f,), repr),
        call_ensures(Repr::into_flow_file, (repr,), r),
    ensures
        repr.size == Some(f.size),
        repr.attributes@ == f.attributes@,
        repr.content@ == base64_text(f.content@),
        r matches Ok(g) && g.size == f.size && g.attributes@ == f.attributes@ && g.content@ == f.content@,
{
}

/// A description is a flow file if its content is base64 and its size, if it
/// says one, is that of the content. Otherwise the answer says which it is not,
/// with both sizes.
pub proof fn law_a_description_is_held_to_its_size(repr: Repr, r: core::result::Result<FlowFile<Vec<u8>>, ReprError>)
    requires
        base64_bytes(repr.content@) matches Ok(content) ==> content.len() <= usize::MAX,
        call_ensures(Repr::into_flow_file, (repr,), r),
    ensures
        match base64_bytes(repr.content@) {
            Err(e) => r == Err::<FlowFile<Vec<u8>>, ReprError>(ReprError::Content(e)),
            Ok(content) => {
                &&& repr.size matches Some(size) ==> (size != content.len() ==> {
                    &&& r matches Err(ReprError::Size { size: said, actual })
                    &&& said == size
                    &&& actual == content.len()
                })
                &&& (repr.size matches Some(size) ==> size == content.len()) ==> {
                    &&& r matches Ok(f)
                    &&& f.size == content.len()
                    &&& f.content@ == content
                    &&& f.attributes@ == repr.attributes@
                }
            },
        },
{
}

/// The same of a content that was decoded before.
pub proof fn law_a_decoded_description_is_held_to_its_size(
    repr: Repr,
    content: Vec<u8>,
    r: core::result::Result<FlowFile<Vec<u8>>, ReprError>,
)
    requires
        content@.len() <= usize::MAX,
        call_ensures(Repr::with_content, (repr, content), r),
    ensures
        repr.size matches Some(size) ==> (size != content@.len() ==> {
            &&& r matches Err(ReprError::Size { size: said, actual })
            &&& said == size
            &&& actual == content@.len()
        }),
        (repr.size matches Some(size) ==> size == content@.len()) ==> {
            &&& r matches Ok(f)
            &&& f.size == content@.len()
            &&& f.content == content
            &&& f.attributes == repr.attributes
        },
{
}

/// A flow file whose content is still to be read is described by the declared
/// number of bytes of it, and what follows them stays.
pub proof fn law_a_streamed_flow_file_is_described<R: Reader>(
    wrapped: &mut StreamingFlowFile<R>,
    r: core::result::Result<Repr, Error>,
)
    requires
        old(wrapped).flow_file.content.pending().len() <= u64::MAX,
        call_ensures(StreamingFlowFile::<R>::to_repr, (wrapped,), r),
    ensures
        ({
            let f = old(wrapped).flow_file;
            let pending = f.content.pending();
            &&& final(wrapped).flow_file.size == f.size
            &&& final(wrapped).flow_file.attributes == f.attributes
            &&& pending.len() >= f.size ==> {
                &&& r matches Ok(repr)
                &&& repr.size == Some(f.size)
                &&& repr.attributes@ == f.attributes@
                &&& repr.content@ == base64_text(pending.take(f.size as int))
                &&& final(wrapped).flow_file.content.pending() == pending.skip(f.size as int)
            }
            &&& pending.len() < f.size ==> {
                &&& final(wrapped).flow_file.content.pending().len() == 0
                &&& match f.content.failure() {
                    Some(io) => r == Err::<Repr, Error>(Error::Io(io)),
                    None => r matches Err(Error::SizeMismatch { expected, actual }) && expected == f.size && actual == pending.len(),
                }
            }
        }),
{
    let f = old(wrapped).flow_file;
    let pending = f.content.pending();
    if pending.len() == f.size {
        assert(pending.skip(f.size as int) =~= Seq::empty());
    }
}

/// What is wrapped is given back.
pub proof fn law_what_is_wrapped_is_given_back(f: FlowFile<Vec<u8>>, wrapped: StreamingFlowFile<Vec<u8>>, back: FlowFile<Vec<u8>>)
    requires
        call_ensures(StreamingFlowFile::<Vec<u8>>::new, (f,), wrapped),
        call_ensures(StreamingFlowFile::<Vec<u8>>::into_inner, (wrapped,), back),
    ensures
        back == f,
        wrapped.flow_file == f,
{
}

/// What is wrong with base64 is told with the byte and its place.
pub proof fn law_errors_in_base64_name_their_place(err: &Base64Error, text: String)
    requires
        call_ensures(Base64Error::message, (err,), text),
    ensures
        match *err {
            Base64Error::InvalidByte(index, byte) => says_two(text@, "Invalid symbol "@, byte as nat, ", offset "@, index as nat, "."@),
            Base64Error::InvalidLastSymbol(index, byte) => says_two(
                text@,
                "Invalid last symbol "@,
                byte as nat,
                ", offset "@,
                index as nat,
                "."@,
            ),
            Base64Error::InvalidLength(len) => says_one(text@, "Invalid input length: "@, len as nat, Seq::empty()),
            Base64Error::InvalidPadding => text@ == "Invalid padding"@,
        },
{
    match *err {
        Base64Error::InvalidByte(index, byte) | Base64Error::InvalidLastSymbol(index, byte) => {
            lemma_decimal(index as nat);
            lemma_decimal(byte as nat);
        },
        Base64Error::InvalidLength(len) => {
            lemma_decimal(len as nat);
            assert(text@ =~= "Invalid input length: "@ + decimal(len as nat) + Seq::<char>::empty());
        },
        Base64Error::InvalidPadding => {},
    }
}

/// A size that is not that of the content is told with both.
pub proof fn law_a_wrong_size_is_told_with_both(err: &ReprError, text: String)
    requires
        call_ensures(ReprError::message, (err,), text),
    ensures
        *err matches ReprError::Size { size, actual } ==> says_two(
            text@,
            "size field ("@,
            size as nat,
            ") does not match decoded content length ("@,
            actual as nat,
            ")"@,
        ),
{
    if let ReprError::Size { size, actual } = *err {
        lemma_decimal(size as nat);
        lemma_decimal(actual as nat);
    }
}

} // verus!
