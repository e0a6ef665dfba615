//! Lore: an indentation-based line markup, read into a tree and written as
//! an HTML document with collapsible sections.
//!
//! The markup has one construct on each line, and two leading spaces make one
//! indent level. `parse` tokenizes lines and builds the forest, `forest` says
//! which forest that is, `output_html` renders it, and `serialize` writes a
//! tokenized line back as text. `outline` and `lir` read two plainer forms of
//! the markup.

mod builder;
pub mod forest;
pub mod input_lore;
pub mod lir;
pub mod node;
pub mod outline;
pub mod output_html;
pub mod parse;
pub mod serialize;
pub mod text;
pub mod traversal;
