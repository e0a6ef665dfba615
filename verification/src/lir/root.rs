//! A document: its lines, in order.

use vstd::prelude::*;
use vstd::string::StringExecFns;
use crate::lir::line::{line_of, line_text, parse_line, Line, LineSpec};

verus! {

/// A whole document. The nesting of its lines follows from their indent
/// levels.
pub struct Root<'f> {
    /// The lines, in source order.
    pub data: Vec<Line<'f>>,
}

/// The lines of a document over sequences of characters.
pub open spec fn line_specs(data: Seq<Line<'_>>) -> Seq<LineSpec> {
    Seq::new(data.len(), |i: int| data[i]@)
}

impl<'f> View for Root<'f> {
    type V = Seq<LineSpec>;

    open spec fn view(&self) -> Seq<LineSpec> {
        line_specs(self.data@)
    }
}

/// The text that a list of lines is written as: each line, then a line feed.
pub open spec fn root_text(lines: Seq<LineSpec>) -> Seq<char>
    decreases lines.len(),
{
    if lines.len() == 0 {
        Seq::empty()
    } else {
        root_text(lines.drop_last()) + line_text(lines.last()) + "\n"@
    }
}

impl<'f> Root<'f> {
    /// The document written out as text.
    pub fn to_string(&self) -> (s: String)
        ensures
            s@ == root_text(self@),
    {
        let mut s = String::new();
        let mut i: usize = 0;
        while i < self.data.len()
            invariant
                i <= self.data.len(),
                s@ == root_text(self@.take(i as int)),
            decreases self.data.len() - i,
        {
            let line = self.data[i].to_string();
            s.append(line.as_str());
            s.append("\n");
            proof {
                assert(self@.take(i + 1).drop_last() =~= self@.take(i as int));
            }
            i += 1;
        }
        proof {
            assert(self@.take(self.data.len() as int) =~= self@);
        }
        s
    }
}

/// Reads a document from its lines.
pub fn parse_root<'f>(raw_lines: Vec<&'f str>) -> (root: Root<'f>)
    ensures
        root@.len() == raw_lines.len(),
        forall|i: int| 0 <= i < raw_lines.len() ==> root@[i] == line_of(raw_lines@[i]@),
{
    let mut data: Vec<Line<'f>> = Vec::new();
    let mut i: usize = 0;
    while i < raw_lines.len()
        invariant
            i <= raw_lines.len(),
            data.len() == i,
            forall|k: int| 0 <= k < i ==> data@[k]@ == line_of(raw_lines@[k]@),
        decreases raw_lines.len() - i,
    {
        data.push(parse_line(raw_lines[i]));
        i += 1;
    }
    Root { data }
}

} // verus!
