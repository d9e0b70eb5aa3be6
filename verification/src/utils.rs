//! Small building blocks: a bounded array and the two byte-string formatters
//! that assemble NUL-terminated messages.
pub mod array;
pub mod fmt;
pub mod display;
