//! A line of an outline: its indent level and its content.

use vstd::prelude::*;
use vstd::string::StringExecFns;
use crate::parse::{LineContent, LineSpec, Token};
use crate::serialize::line_text;
use crate::text::indentation_string;

verus! {

/// One line of an outline.
pub struct Line {
    pub indent: usize,
    pub content: Content,
}

/// What a line of an outline holds.
#[derive(Debug)]
pub enum Content {
    Atom(String),
    Link(String, String),
    Domain(String),
}

impl View for Content {
    type V = Token;

    open spec fn view(&self) -> Token {
        match self {
            Content::Atom(text) => Token::Atom(text@),
            Content::Link(name, value) => Token::Link(name@, value@),
            Content::Domain(name) => Token::Domain(name@),
        }
    }
}

impl View for Line {
    type V = LineSpec;

    open spec fn view(&self) -> LineSpec {
        LineSpec { token: self.content@, indent: self.indent as nat }
    }
}

/// The views of a sequence of lines, in order.
pub open spec fn line_views(lines: Seq<Line>) -> Seq<LineSpec> {
    Seq::new(lines.len(), |i: int| lines[i]@)
}

/// Whether a token is one that an outline has: an atom, a link or a domain.
pub open spec fn in_outline(token: Token) -> bool {
    token is Atom || token is Link || token is Domain
}

impl Line {
    /// The line written out as text.
    pub fn to_string(&self) -> (s: String)
        ensures
            s@ == line_text(self@),
    {
        let mut s = indentation_string(self.indent);
        match &self.content {
            Content::Atom(text) => {
                s.append(text.as_str());
            },
            Content::Link(name, value) => {
                let mut body = name.clone();
                body.append(" = ");
                body.append(value.as_str());
                s.append(body.as_str());
            },
            Content::Domain(name) => {
                let mut body = String::from_str("+ ");
                body.append(name.as_str());
                s.append(body.as_str());
            },
        }
        s
    }

    /// The same line as a tokenized line of the full markup.
    pub fn to_line_content(&self) -> (r: LineContent)
        ensures
            r@ == self@,
    {
        match &self.content {
            Content::Atom(text) => LineContent::Atom(text.clone(), self.indent),
            Content::Link(name, value) => LineContent::Link(
                name.clone(),
                value.clone(),
                self.indent,
            ),
            Content::Domain(name) => LineContent::Domain(name.clone(), self.indent),
        }
    }
}

} // verus!
