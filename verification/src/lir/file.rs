//! A source file held in memory: where it came from, and its lines.

use vstd::prelude::*;
use vstd::string::StringExecFns;
use crate::lir::line::line_of;
use crate::lir::root::{parse_root, Root};
use crate::text::{decimal, decimal_string};

verus! {

/// The lines of a source file, with the path they were read from.
pub struct File {
    path: String,
    content: Vec<String>,
}

impl File {
    /// A file with the given path and lines.
    pub fn from_lines(path: String, content: Vec<String>) -> (file: File)
        ensures
            file.path()@ == path@,
            file.lines() == content@,
    {
        File { path, content }
    }

    /// The path of the file.
    pub closed spec fn path(&self) -> String {
        self.path
    }

    /// The lines of the file, in order.
    pub closed spec fn lines(&self) -> Seq<String> {
        self.content@
    }

    /// The file in a few words: its path and how many lines it has.
    pub fn to_string(&self) -> (s: String)
        ensures
            s@ == "File: "@ + self.path()@ + " ("@ + decimal(self.lines().len()) + " lines)"@,
    {
        let mut s = String::from_str("File: ");
        s.append(self.path.as_str());
        s.append(" (");
        let count = decimal_string(self.content.len() as u128);
        s.append(count.as_str());
        s.append(" lines)");
        s
    }

    /// Reads the document that the lines of the file hold, one line of the
    /// document for each line of the file.
    pub fn parse(&self) -> (root: Root<'_>)
        ensures
            root@.len() == self.lines().len(),
            forall|i: int| 0 <= i < self.lines().len() ==> root@[i] == line_of(self.lines()[i]@),
    {
        let mut raw: Vec<&str> = Vec::new();
        let mut i: usize = 0;
        while i < self.content.len()
            invariant
                i <= self.content.len(),
                raw.len() == i,
                forall|k: int| 0 <= k < i ==> raw@[k]@ == self.content@[k]@,
            decreases self.content.len() - i,
        {
            raw.push(self.content[i].as_str());
            i += 1;
        }
        parse_root(raw)
    }
}

} // verus!
