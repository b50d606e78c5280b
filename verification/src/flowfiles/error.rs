//! What can go wrong with a stream of flow files.

use vstd::prelude::*;
use vstd::string::*;

use crate::error::IoError;
use crate::text::{byte_list, decimal};
use crate::text::{byte_list_text, decimal_text};

verus! {

/// Errors that can occur during parsing of NiFi Flow Files from a streaming source.
///
/// The source will typically be an HTTP POST body, but could also be other byte streams.
#[derive(Debug, PartialEq, Eq)]
pub enum FlowFileParsingError {
    /// The file did not contain the expected `b"NiFiFF3"` magic byte header.
    BadMagicBytes([u8; 7]),
    /// IO error while parsing a flow file.
    ///
    /// The context indicates in which stage of parsing the error occured.
    Malformed {
        context: &'static str,
        io_error: IoError,
    },
    /// The content of a flow file was never handed back.
    ///
    /// Such an error is never expected, and if it occurs you should consider the relevant
    /// [`StreamedFlowFiles`](crate::flowfiles::StreamedFlowFiles) unusable.
    BrokenChannel,
    /// Content length was less than a flow file indicated it contained.
    /// This occurs if the content length in the flow file header doesn't agree with the request
    /// content length about how many bytes are left in the stream.
    ContentLengthLengthMismatch {
        content_length: u64,
        flow_file_required: u64,
    },
    /// If a flow file was expected, but the content length stopped us from trying to parse one out.
    /// This can happen when extracting and expecting a single flow file, but the content length of
    /// the post payload was zero.
    FlowFileExpected,
    /// If a single flow file was expected, but we received trailing data.
    /// This can happen if multiple flow files where sent, or if the flow file header size value
    /// reports a smaller size than the payload length contains.
    SingleFlowFileExpected,
    /// Generic I/O error.
    Io(IoError),
}

impl FlowFileParsingError {
    /// What the error says.
    pub open spec fn text(self) -> Seq<char> {
        match self {
            FlowFileParsingError::BadMagicBytes(found) =>
                "Incorrect flow file magic bytes, expected 'NiFiFF3' but got "@ + byte_list(found@),
            FlowFileParsingError::Malformed { context, io_error } => "Malformed flowfile: "@ + context@ + ": "@
                + io_error.text(),
            FlowFileParsingError::BrokenChannel =>
                "Broken internal flow file parsing channel: channel closed"@,
            FlowFileParsingError::ContentLengthLengthMismatch { content_length, flow_file_required } =>
                "Content length of "@ + decimal(content_length as nat) + " less than flow file header indicated "@
                    + decimal(flow_file_required as nat),
            FlowFileParsingError::FlowFileExpected => "A flow file was expected in the request payload."@,
            FlowFileParsingError::SingleFlowFileExpected =>
                "A single flow file was expected in the request payload, but excess data was received."@,
            FlowFileParsingError::Io(io) => "IO error while processing flowfile: "@ + io.text(),
        }
    }

    /// What the error says.
    pub fn message(&self) -> (text: String)
        ensures
            text@ == self.text(),
    {
        match self {
            FlowFileParsingError::BadMagicBytes(found) =>
                "Incorrect flow file magic bytes, expected 'NiFiFF3' but got ".to_owned().concat(
                byte_list_text(found).as_str(),
            ),
            FlowFileParsingError::Malformed { context, io_error } => "Malformed flowfile: ".to_owned().concat(
                context,
            ).concat(": ").concat(io_error.message().as_str()),
            FlowFileParsingError::BrokenChannel =>
                "Broken internal flow file parsing channel: channel closed".to_owned(),
            FlowFileParsingError::ContentLengthLengthMismatch { content_length, flow_file_required } =>
                "Content length of ".to_owned().concat(decimal_text(*content_length).as_str()).concat(
                " less than flow file header indicated ",
            ).concat(decimal_text(*flow_file_required).as_str()),
            FlowFileParsingError::FlowFileExpected =>
                "A flow file was expected in the request payload.".to_owned(),
            FlowFileParsingError::SingleFlowFileExpected =>
                "A single flow file was expected in the request payload, but excess data was received.".to_owned(),
            FlowFileParsingError::Io(io) => "IO error while processing flowfile: ".to_owned().concat(
                io.message().as_str(),
            ),
        }
    }

    /// The status code of a response that reports this error.
    pub open spec fn status_code(self) -> u16 {
        match self {
            FlowFileParsingError::SingleFlowFileExpected => 422,
            FlowFileParsingError::Io(_) => 500,
            _ => 400,
        }
    }

    /// The status code of a response that reports this error: `422
    /// Unprocessable Entity` where one flow file was expected and excess data
    /// received, since the start of the input was parsed, `500 Internal Server
    /// Error` where reading failed, and `400 Bad Request` otherwise.
    pub fn status(&self) -> (code: u16)
        ensures
            code == self.status_code(),
    {
        match self {
            FlowFileParsingError::SingleFlowFileExpected => 422,
            FlowFileParsingError::Io(_) => 500,
            _ => 400,
        }
    }
}

impl vstd::std_specs::convert::FromSpecImpl<IoError> for FlowFileParsingError {
    open spec fn obeys_from_spec() -> bool {
        true
    }

    open spec fn from_spec(err: IoError) -> FlowFileParsingError {
        FlowFileParsingError::Io(err)
    }
}

impl From<IoError> for FlowFileParsingError {
    fn from(err: IoError) -> (e: FlowFileParsingError) {
        FlowFileParsingError::Io(err)
    }
}

} // verus!
