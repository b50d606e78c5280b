//! Flow files as a stream that is read and answered at the same time.

pub mod error;
pub mod flowfile;
pub mod header;
pub mod iterator;
pub mod laws;
pub mod parser;
pub mod writer;

pub use error::FlowFileParsingError;
pub use flowfile::{FlowFile, FlowFileBuilder};
pub use header::FlowFileHeader;
pub use iterator::{FlowFileIterator, StreamedFlowFile, StreamedFlowFiles};
pub use parser::parse_flow_file_from_reader;
pub use writer::{FlowFileBodyWriter, FlowFileEncoder, OutputFlowFile, OutputFlowFileWithoutContent, Storage};
