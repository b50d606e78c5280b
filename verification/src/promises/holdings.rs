//! Attributes, and what a flow file holds.

use vstd::prelude::*;
use vstd::utf8::*;

use crate::attr;
use crate::attributes::Attributes;
use crate::flow_file::FlowFile;
use crate::io::{Cursor, Reader};
use crate::text::{InvalidNumber, InvalidUtf8};
use super::numbers::{comes_before, lemma_comes_before, numeral, ten_weighed};
use super::splits::{lemma_put_in, put_in};

verus! {

/// Both are the same text, or both are none.
pub open spec fn same_text(a: Option<&str>, b: Option<&str>) -> bool {
    match (a, b) {
        (Some(x), Some(y)) => x@ == y@,
        (None, None) => true,
        _ => false,
    }
}

/// What is set under a key is found there, and nothing else changes. What was
/// there before comes back.
pub proof fn law_what_is_set_is_found(
    attributes: &mut Attributes,
    key: String,
    value: String,
    replaced: Option<String>,
    asked: &str,
    before: Option<&str>,
    after: Option<&str>,
)
    requires
        call_ensures(Attributes::get, (&*old(attributes), asked), before),
        call_ensures(Attributes::insert, (attributes, key, value), replaced),
        call_ensures(Attributes::get, (&*final(attributes), asked), after),
    ensures
        asked@ == key@ ==> (after matches Some(found) && found@ == value@),
        asked@ != key@ ==> same_text(after, before),
        asked@ == key@ ==> match replaced {
            Some(old_value) => before matches Some(found) && found@ == old_value@,
            None => before is None,
        },
{
}

/// What is taken away is gone and comes back, and nothing else changes.
pub proof fn law_what_is_removed_is_gone(
    attributes: &mut Attributes,
    key: &str,
    removed: Option<String>,
    asked: &str,
    before: Option<&str>,
    after: Option<&str>,
)
    requires
        call_ensures(Attributes::get, (&*old(attributes), asked), before),
        call_ensures(Attributes::remove, (attributes, key), removed),
        call_ensures(Attributes::get, (&*final(attributes), asked), after),
    ensures
        asked@ == key@ ==> after is None,
        asked@ != key@ ==> same_text(after, before),
        asked@ == key@ ==> match removed {
            Some(old_value) => before matches Some(found) && found@ == old_value@,
            None => before is None,
        },
{
}

/// A list of pairs is put in from its first to its last.
pub proof fn law_a_list_is_put_in_order(attributes: &mut Attributes, more: Vec<(String, String)>)
    requires
        call_ensures(Attributes::extend, (attributes, more), ()),
    ensures
        put_in(more@, old(attributes)@, final(attributes)@),
{
    lemma_put_in(more@, old(attributes)@);
}

/// A key is there exactly where it has a value, and new attributes have none.
pub proof fn law_a_key_is_there_where_it_has_a_value(
    empty: Attributes,
    attributes: &Attributes,
    key: &str,
    there: bool,
    value: Option<&str>,
    of_empty: Option<&str>,
    n: usize,
    none: bool,
)
    requires
        call_ensures(Attributes::new, (), empty),
        call_ensures(Attributes::get, (&empty, key), of_empty),
        call_ensures(Attributes::contains_key, (attributes, key), there),
        call_ensures(Attributes::get, (attributes, key), value),
        call_ensures(Attributes::len, (attributes,), n),
        call_ensures(Attributes::is_empty, (attributes,), none),
    ensures
        of_empty is None,
        there <==> value is Some,
        none <==> n == 0,
        there ==> n > 0,
{
    if there {
        assert(attributes@.dom().len() != 0) by {
            if attributes@.dom().len() == 0 {
                assert(attributes@.dom() =~= Set::empty());
            }
        }
    }
}

/// Attributes are counted in the order of the bytes of their keys, each key once,
/// with the value that it has.
pub proof fn law_attributes_are_counted_in_order(
    attributes: &Attributes,
    n: usize,
    i: usize,
    j: usize,
    key_i: &str,
    key_j: &str,
    value_i: &str,
    found: Option<&str>,
)
    requires
        call_ensures(Attributes::len, (attributes,), n),
        i < n,
        j < n,
        call_ensures(Attributes::key_at, (attributes, i), key_i),
        call_ensures(Attributes::key_at, (attributes, j), key_j),
        call_ensures(Attributes::value_at, (attributes, i), value_i),
        call_ensures(Attributes::get, (attributes, key_i), found),
    ensures
        i < j ==> comes_before(encode_utf8(key_i@), encode_utf8(key_j@)),
        found matches Some(value) && value@ == value_i@,
        n == attributes@.len(),
{
    let entries = attributes.entries();
    crate::attributes::lemma_entries_map(entries);
    if i < j {
        assert(crate::text::key_lt(entries[i as int].0, entries[j as int].0));
        lemma_comes_before(encode_utf8(key_i@), encode_utf8(key_j@));
    }
    assert(attributes@.dom().contains(entries[i as int].0));
}

/// An attribute of a flow file is what its attributes say.
pub proof fn law_an_attribute_is_what_the_attributes_say(
    f: &FlowFile<Vec<u8>>,
    key: &str,
    value: Option<&str>,
    of_map: Option<&str>,
    all: &Attributes,
    size: u64,
    content: &Vec<u8>,
)
    requires
        call_ensures(FlowFile::<Vec<u8>>::attributes, (f,), all),
        call_ensures(FlowFile::<Vec<u8>>::attribute, (f, key), value),
        call_ensures(Attributes::get, (all, key), of_map),
        call_ensures(FlowFile::<Vec<u8>>::size, (f,), size),
        call_ensures(FlowFile::<Vec<u8>>::content, (f,), content),
    ensures
        same_text(value, of_map),
        all == &f.attributes,
        size == f.size,
        content == &f.content,
{
}

/// An attribute that is a number is that number, one that is none is told as it
/// is, and one that is not there is none.
pub proof fn law_an_attribute_is_read_as_a_number(
    f: &FlowFile<Vec<u8>>,
    key: &str,
    value: Option<&str>,
    n: core::result::Result<Option<u64>, InvalidNumber>,
)
    requires
        call_ensures(FlowFile::<Vec<u8>>::attribute, (f, key), value),
        call_ensures(FlowFile::<Vec<u8>>::parse_attribute, (f, key), n),
    ensures
        value is None ==> n == Ok::<Option<u64>, InvalidNumber>(None),
        value matches Some(text) ==> {
            &&& !(n == Ok::<Option<u64>, InvalidNumber>(None))
            &&& numeral(text@) && ten_weighed(text@, 0) <= u64::MAX ==> n is Ok && n->Ok_0 == Some(ten_weighed(text@, 0) as u64)
            &&& n matches Ok(Some(number)) ==> {
                ||| numeral(text@) && number == ten_weighed(text@, 0)
                ||| text@.len() > 0 && text@[0] == '+' && numeral(text@.skip(1)) && number == ten_weighed(text@.skip(1), 0)
            }
            &&& n matches Err(invalid) ==> invalid.text@ == text@
        },
{
    if let Some(text) = value {
        super::numbers::lemma_number(text@);
    }
}

/// A content is text exactly where its bytes are UTF-8, and then it is the text
/// with those bytes.
pub proof fn law_a_content_is_the_text_of_its_bytes(f: &FlowFile<Vec<u8>>, text: core::result::Result<String, InvalidUtf8>)
    requires
        call_ensures(FlowFile::<Vec<u8>>::content_str, (f,), text),
    ensures
        text is Ok <==> valid_utf8(f.content@),
        text matches Ok(s) ==> encode_utf8(s@) == f.content@,
        text matches Err(invalid) ==> invalid.bytes@ == f.content@,
{
}

/// Taking a flow file apart and putting it together again gives the same.
pub proof fn law_a_flow_file_is_its_parts(
    f: FlowFile<Vec<u8>>,
    parts: (u64, Attributes, Vec<u8>),
    again: FlowFile<Vec<u8>>,
    content: Vec<u8>,
    n: u64,
    sized: FlowFile<Vec<u8>>,
)
    requires
        call_ensures(FlowFile::<Vec<u8>>::into_parts, (f,), parts),
        call_ensures(FlowFile::<Vec<u8>>::from_parts, (parts.0, parts.1, parts.2), again),
        call_ensures(FlowFile::<Vec<u8>>::into_content, (f,), content),
        call_ensures(FlowFile::<Vec<u8>>::with_size, (f, n), sized),
    ensures
        again == f,
        parts.0 == f.size,
        parts.1 == f.attributes,
        parts.2 == f.content,
        content == f.content,
        sized.size == n,
        sized.attributes == f.attributes,
        sized.content == f.content,
{
}

/// A flow file that is made a reader of keeps its size and attributes, and its
/// content is what is read.
pub proof fn law_a_reader_of_a_flow_file_reads_its_content(f: FlowFile<Vec<u8>>, reader: FlowFile<Cursor>)
    requires
        call_ensures(FlowFile::<Vec<u8>>::into_reader, (f,), reader),
    ensures
        reader.size == f.size,
        reader.attributes == f.attributes,
        reader.content.pending() == f.content@,
        reader.content.failure() is None,
{
}

/// A flow file whose content is changed in memory declares the new size and
/// keeps its attributes.
pub proof fn law_a_changed_content_is_declared<F: FnOnce(Vec<u8>) -> Vec<u8>>(
    f: FlowFile<Vec<u8>>,
    change: F,
    changed: FlowFile<Vec<u8>>,
)
    requires
        call_ensures(FlowFile::<Vec<u8>>::map_bytes::<F>, (f, change), changed),
    ensures
        changed.size == changed.content@.len(),
        changed.attributes == f.attributes,
        call_ensures(change, (f.content,), changed.content),
{
}

/// A flow file whose content is put into another container keeps its attributes,
/// and its size unless a new one is given.
pub proof fn law_another_container_keeps_the_attributes<F: FnOnce(Vec<u8>) -> Cursor, G: FnOnce(Vec<u8>) -> (Cursor, u64)>(
    f: FlowFile<Vec<u8>>,
    change: F,
    changed: FlowFile<Cursor>,
    resize: G,
    resized: FlowFile<Cursor>,
)
    requires
        call_ensures(FlowFile::<Vec<u8>>::map_content::<Cursor, F>, (f, change), changed),
        call_ensures(FlowFile::<Vec<u8>>::map_content_sized::<Cursor, G>, (f, resize), resized),
    ensures
        changed.size == f.size,
        changed.attributes == f.attributes,
        call_ensures(change, (f.content,), changed.content),
        resized.attributes == f.attributes,
        call_ensures(resize, (f.content,), (resized.content, resized.size)),
{
}

/// A copy of attributes has the same values, in the same order.
pub proof fn law_a_copy_holds_the_same(attributes: &Attributes, copy: Attributes, key: &str, value: Option<&str>, of_copy: Option<&str>, f: &FlowFile<Vec<u8>>, g: FlowFile<Vec<u8>>)
    requires
        call_ensures(Attributes::clone, (attributes,), copy),
        call_ensures(Attributes::get, (attributes, key), value),
        call_ensures(Attributes::get, (&copy, key), of_copy),
        call_ensures(FlowFile::<Vec<u8>>::clone, (f,), g),
    ensures
        same_text(value, of_copy),
        copy.entries() == attributes.entries(),
        g.size == f.size,
        g.attributes@ == f.attributes@,
        g.content@ == f.content@,
{
}

/// The names that NiFi gives a meaning to.
pub proof fn law_the_names_that_nifi_knows()
    ensures
        attr::UUID@ == "uuid"@,
        attr::FILENAME@ == "filename"@,
        attr::PATH@ == "path"@,
        attr::ABSOLUTE_PATH@ == "absolute.path"@,
        attr::MIME_TYPE@ == "mime.type"@,
        attr::RECORD_COUNT@ == "record.count"@,
        attr::FRAGMENT_ID@ == "fragment.identifier"@,
        attr::FRAGMENT_INDEX@ == "fragment.index"@,
        attr::FRAGMENT_COUNT@ == "fragment.count"@,
        attr::SEGMENT_ORIGINAL_FILENAME@ == "segment.original.filename"@,
        attr::PRIORITY@ == "priority"@,
        attr::DISCARD_REASON@ == "discard.reason"@,
        attr::ALTERNATE_IDENTIFIER@ == "alternate.identifier"@,
        attr::FILE_SIZE@ == "file.size"@,
        attr::FILE_OWNER@ == "file.owner"@,
        attr::FILE_GROUP@ == "file.group"@,
        attr::FILE_PERMISSIONS@ == "file.permissions"@,
        attr::FILE_LAST_MODIFIED_TIME@ == "file.lastModifiedTime"@,
        attr::FILE_LAST_ACCESS_TIME@ == "file.lastAccessTime"@,
        attr::FILE_CREATION_TIME@ == "file.creationTime"@,
        attr::FRAGMENT_SIZE@ == "fragment.size"@,
        attr::TEXT_LINE_COUNT@ == "text.line.count"@,
        attr::MERGE_COUNT@ == "merge.count"@,
        attr::MERGE_BIN_AGE@ == "merge.bin.age"@,
        attr::MERGE_UUID@ == "merge.uuid"@,
        attr::MERGE_REASON@ == "merge.reason"@,
        attr::HTTP_CONTEXT_IDENTIFIER@ == "http.context.identifier"@,
        attr::HTTP_METHOD@ == "http.method"@,
        attr::HTTP_REQUEST_URI@ == "http.request.uri"@,
        attr::HTTP_QUERY_STRING@ == "http.query.string"@,
        attr::HTTP_REMOTE_HOST@ == "http.remote.host"@,
        attr::HTTP_REMOTE_ADDR@ == "http.remote.addr"@,
        attr::HTTP_REMOTE_USER@ == "http.remote.user"@,
        attr::HTTP_PROTOCOL@ == "http.protocol"@,
        attr::INVOKEHTTP_STATUS_CODE@ == "invokehttp.status.code"@,
        attr::INVOKEHTTP_STATUS_MESSAGE@ == "invokehttp.status.message"@,
        attr::INVOKEHTTP_REQUEST_URL@ == "invokehttp.request.url"@,
        attr::INVOKEHTTP_RESPONSE_URL@ == "invokehttp.response.url"@,
        attr::INVOKEHTTP_REQUEST_DURATION@ == "invokehttp.request.duration"@,
        attr::INVOKEHTTP_TX_ID@ == "invokehttp.tx.id"@,
        crate::MEDIA_TYPE@ == "application/flowfile-v3"@,
{
}

} // verus!
