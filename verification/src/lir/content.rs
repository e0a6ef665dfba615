//! What a line holds once its indentation is taken off.

use vstd::prelude::*;
use vstd::string::{StrSliceExecFns, StringExecFns};

verus! {

/// The content of a line: an element, or a domain. Both borrow their text
/// from the line they were read from.
pub enum Content<'f> {
    /// Plain text.
    Element(&'f str),
    /// What follows the `+` and the space of a domain line.
    Domain(&'f str),
}

/// A line's content over sequences of characters.
pub enum ContentSpec {
    Element(Seq<char>),
    Domain(Seq<char>),
}

impl<'f> View for Content<'f> {
    type V = ContentSpec;

    open spec fn view(&self) -> ContentSpec {
        match self {
            Content::Element(text) => ContentSpec::Element(text@),
            Content::Domain(text) => ContentSpec::Domain(text@),
        }
    }
}

/// The content that a text stands for: a domain when it starts with `+` and
/// a space, with what follows them as its text; an element of the whole text
/// otherwise.
pub open spec fn content_of(s: Seq<char>) -> ContentSpec {
    if s.len() >= 2 && s[0] == '+' && s[1] == ' ' {
        ContentSpec::Domain(s.skip(2))
    } else {
        ContentSpec::Element(s)
    }
}

/// The text that a content is written as: a domain gets `+` and a space in
/// front.
pub open spec fn content_text(c: ContentSpec) -> Seq<char> {
    match c {
        ContentSpec::Element(text) => text,
        ContentSpec::Domain(text) => "+ "@ + text,
    }
}

impl<'f> Content<'f> {
    /// The content written out as text.
    pub fn to_string(&self) -> (s: String)
        ensures
            s@ == content_text(self@),
    {
        match self {
            Content::Element(text) => String::from_str(text),
            Content::Domain(text) => {
                let mut s = String::from_str("+ ");
                s.append(text);
                s
            },
        }
    }
}

/// Reads the content of a line from its text without the indentation.
pub fn parse_content(content: &str) -> (c: Content<'_>)
    ensures
        c@ == content_of(content@),
{
    let n = content.unicode_len();
    if n >= 2 && content.get_char(0) == '+' && content.get_char(1) == ' ' {
        let rest = content.substring_char(2, n);
        Content::Domain(rest)
    } else {
        Content::Element(content)
    }
}

/// Reading a content and writing it out gives the text that was read.
pub proof fn lemma_content_text_is_kept(s: Seq<char>)
    ensures
        content_text(content_of(s)) == s,
{
    reveal_strlit("+ ");
}

/// Writing a content out and reading it back gives the same content, but for
/// an element whose text itself starts with `+` and a space.
pub proof fn lemma_content_round_trip(c: ContentSpec)
    requires
        c matches ContentSpec::Element(text) ==> !(text.len() >= 2 && text[0] == '+' && text[1]
            == ' '),
    ensures
        content_of(content_text(c)) == c,
{
    reveal_strlit("+ ");
    match c {
        ContentSpec::Element(text) => {},
        ContentSpec::Domain(text) => {
            assert(("+ "@ + text).skip(2) =~= text);
        },
    }
}

} // verus!
