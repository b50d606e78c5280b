use nififf3::attr::{
    ABSOLUTE_PATH, ALTERNATE_IDENTIFIER, DISCARD_REASON, FILENAME, FILE_CREATION_TIME, FILE_GROUP,
    FILE_LAST_ACCESS_TIME, FILE_LAST_MODIFIED_TIME, FILE_OWNER, FILE_PERMISSIONS, FILE_SIZE, FRAGMENT_COUNT,
    FRAGMENT_ID, FRAGMENT_INDEX, FRAGMENT_SIZE, HTTP_CONTEXT_IDENTIFIER, HTTP_METHOD, HTTP_PROTOCOL,
    HTTP_QUERY_STRING, HTTP_REMOTE_ADDR, HTTP_REMOTE_HOST, HTTP_REMOTE_USER, HTTP_REQUEST_URI,
    INVOKEHTTP_REQUEST_DURATION, INVOKEHTTP_REQUEST_URL, INVOKEHTTP_RESPONSE_URL, INVOKEHTTP_STATUS_CODE,
    INVOKEHTTP_STATUS_MESSAGE, INVOKEHTTP_TX_ID, MERGE_BIN_AGE, MERGE_COUNT, MERGE_REASON, MERGE_UUID, MIME_TYPE,
    PATH, PRIORITY, RECORD_COUNT, SEGMENT_ORIGINAL_FILENAME, TEXT_LINE_COUNT, UUID,
};

#[test]
fn the_attribute_names_are_all_distinct() {
    let names = [
        UUID,
        FILENAME,
        PATH,
        ABSOLUTE_PATH,
        MIME_TYPE,
        RECORD_COUNT,
        FRAGMENT_ID,
        FRAGMENT_INDEX,
        FRAGMENT_COUNT,
        SEGMENT_ORIGINAL_FILENAME,
        PRIORITY,
        DISCARD_REASON,
        ALTERNATE_IDENTIFIER,
        FILE_SIZE,
        FILE_OWNER,
        FILE_GROUP,
        FILE_PERMISSIONS,
        FILE_LAST_MODIFIED_TIME,
        FILE_LAST_ACCESS_TIME,
        FILE_CREATION_TIME,
        FRAGMENT_SIZE,
        TEXT_LINE_COUNT,
        MERGE_COUNT,
        MERGE_BIN_AGE,
        MERGE_UUID,
        MERGE_REASON,
        HTTP_CONTEXT_IDENTIFIER,
        HTTP_METHOD,
        HTTP_REQUEST_URI,
        HTTP_QUERY_STRING,
        HTTP_REMOTE_HOST,
        HTTP_REMOTE_ADDR,
        HTTP_REMOTE_USER,
        HTTP_PROTOCOL,
        INVOKEHTTP_STATUS_CODE,
        INVOKEHTTP_STATUS_MESSAGE,
        INVOKEHTTP_REQUEST_URL,
        INVOKEHTTP_RESPONSE_URL,
        INVOKEHTTP_REQUEST_DURATION,
        INVOKEHTTP_TX_ID,
    ];

    let unique: std::collections::HashSet<_> = names.iter().collect();
    assert_eq!(unique.len(), names.len(), "a name is repeated: {names:?}");
    assert!(names.iter().all(|name| !name.is_empty()));
}
