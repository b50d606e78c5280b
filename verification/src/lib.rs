//! NiFi FlowFile V3.

use vstd::prelude::*;

pub mod async_io;
pub mod attr;
pub mod attributes;
pub mod builder;
pub mod cli;
pub mod decode;
pub mod error;
pub mod flow_file;
pub mod flowfiles;
pub mod format;
pub mod fragments;
pub mod http;
pub mod identity;
pub mod io;
pub mod json;
pub mod laws;
pub mod limits;
pub mod promises;
pub mod spool;
pub mod sync;
pub mod text;

pub use async_io::{FlowFilesAsync, FlowFilesWriterAsync};
pub use attributes::Attributes;
pub use builder::FlowFileBuilder;
pub use decode::HeaderDecoder;
pub use error::{Detail, Error, ErrorKind, IoError, Result};
pub use flow_file::FlowFile;
pub use fragments::{FragmentKeys, Fragments};
pub use http::{FlowFileBody, FlowFilesResponse, StrictRejection};
pub use io::{ByteReader, Cursor, Reader, Take, Writer};
pub use json::StreamingFlowFile;
pub use limits::Limits;
pub use spool::SpooledContent;
pub use sync::{FlowFiles, FlowFilesReader, FlowFilesWriter, StreamedContent};

verus! {

/// The media type of a flow file V3, as used by NiFi.
pub const MEDIA_TYPE: &'static str = "application/flowfile-v3";

} // verus!
