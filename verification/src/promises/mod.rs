//! What the operations promise, said of their arguments and results alone.
//!
//! Each statement here is about calls of the library's own functions, through
//! the values that go in and come out. Numbers are said by arithmetic, bytes
//! and texts by their places, attributes by their keys and values.

pub mod arrivals;
pub mod bounds;
pub mod commands;
pub mod descriptions;
pub mod failures;
pub mod holdings;
pub mod layout;
pub mod numbers;
pub mod parsing;
pub mod requests;
pub mod splits;
pub mod spooling;
pub mod streams;
pub mod transport;
