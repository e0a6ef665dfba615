//! The plain line format: a document is a list of lines, each an element or
//! a domain at some indent level. Two spaces make one level, and a line that
//! starts with `+` and a space is a domain.

pub mod content;
pub mod file;
pub mod line;
pub mod root;
