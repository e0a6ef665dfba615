//! The outline format: the part of the markup that has atoms, links and
//! domains only. A line that starts with `+` is a domain, a line with `=` is
//! a link, and any other line is an atom.

pub mod input_lore;
pub mod line;
pub mod node;
pub mod output;
pub mod parser;
