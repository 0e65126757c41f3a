//! The log file: a header, a version, and framed messages up to the end.

pub mod message;
pub mod reader;
pub mod writer;
