//! A line: its indent level and its content.

use vstd::prelude::*;
use vstd::string::{StrSliceExecFns, StringExecFns};
use crate::lir::content::{
    content_of, content_text, lemma_content_text_is_kept, parse_content, Content, ContentSpec,
};
use crate::text::{
    count_leading_spaces, indentation, indentation_string, leading_spaces, lemma_clean_start,
    lemma_indented,
    lemma_trim_start_clean, to_chars, trim_start, trim_start_bound,
};

verus! {

/// One line of a document.
pub struct Line<'f> {
    /// The nesting depth: 0 at the root, one more for every two leading spaces.
    pub indent: usize,
    /// What the line holds.
    pub content: Content<'f>,
}

/// A line over sequences of characters.
pub struct LineSpec {
    pub indent: nat,
    pub content: ContentSpec,
}

impl<'f> View for Line<'f> {
    type V = LineSpec;

    open spec fn view(&self) -> LineSpec {
        LineSpec { indent: self.indent as nat, content: self.content@ }
    }
}

/// The line that a text stands for: two leading spaces make one indent level,
/// an odd space more is dropped, and the content is read from the text
/// without its leading whitespace.
pub open spec fn line_of(raw: Seq<char>) -> LineSpec {
    LineSpec { indent: leading_spaces(raw) / 2, content: content_of(trim_start(raw)) }
}

/// The text that a line is written as: two spaces for each indent level, then
/// the content.
pub open spec fn line_text(line: LineSpec) -> Seq<char> {
    indentation(line.indent) + content_text(line.content)
}

impl<'f> Line<'f> {
    /// The line written out as text.
    pub fn to_string(&self) -> (s: String)
        ensures
            s@ == line_text(self@),
    {
        let mut s = indentation_string(self.indent);
        let content = self.content.to_string();
        s.append(content.as_str());
        s
    }
}

/// Reads one line.
pub fn parse_line(raw_line: &str) -> (line: Line<'_>)
    ensures
        line@ == line_of(raw_line@),
{
    let chars = to_chars(raw_line);
    let n = chars.len();
    assert(chars@.subrange(0, n as int) =~= raw_line@);
    let indent = count_leading_spaces(&chars, 0, n) / 2;
    let start = trim_start_bound(&chars, 0, n);
    let content = parse_content(raw_line.substring_char(start, n));
    Line { content, indent }
}

/// Reading a line and writing it out keeps its text behind the leading
/// whitespace, and puts two spaces for each indent level in front of it.
pub proof fn lemma_line_text_is_kept(raw: Seq<char>)
    ensures
        line_text(line_of(raw)) == indentation(leading_spaces(raw) / 2) + trim_start(raw),
{
    lemma_content_text_is_kept(trim_start(raw));
}

/// Every line reads back as itself once it is written out.
pub proof fn lemma_line_round_trip(raw: Seq<char>)
    ensures
        line_of(line_text(line_of(raw))) == line_of(raw),
{
    let t = trim_start(raw);
    let level = leading_spaces(raw) / 2;
    lemma_line_text_is_kept(raw);
    lemma_trim_start_clean(raw);
    lemma_indented(level, t);
    lemma_clean_start(t);
}

} // verus!
