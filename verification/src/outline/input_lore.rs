//! Reading a whole outline.

use vstd::prelude::*;
use crate::outline::line::{line_views, Line};
use crate::outline::parser::{outline_between, tokenize_outline};
use crate::parse::LineSpec;
use crate::text::{bounds_of, nonblank_line_bounds, nonblank_lines, to_chars};

verus! {

/// The tokenized lines of an outline: each line that holds more than
/// whitespace, tokenized, in order.
pub open spec fn tokenize_outline_text(s: Seq<char>) -> Seq<LineSpec> {
    Seq::new(nonblank_lines(s).len(), |i: int| tokenize_outline(nonblank_lines(s)[i]))
}

/// Tokenizes an outline line by line, leaving out the blank lines.
pub fn parse(input: &str) -> (r: Vec<Line>)
    ensures
        line_views(r@) == tokenize_outline_text(input@),
{
    let chars = to_chars(input);
    let bounds = nonblank_line_bounds(&chars);
    let mut out: Vec<Line> = Vec::new();
    let mut i: usize = 0;
    while i < bounds.len()
        invariant
            i <= bounds.len(),
            out.len() == i,
            bounds_of(chars@, bounds@, nonblank_lines(chars@)),
            forall|k: int| 0 <= k < i ==> out@[k]@ == tokenize_outline(nonblank_lines(chars@)[k]),
        decreases bounds.len() - i,
    {
        let (lo, hi) = bounds[i];
        out.push(outline_between(&chars, lo, hi));
        i += 1;
    }
    out
}

} // verus!
