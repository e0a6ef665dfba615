//! The title of a document, taken from the path of the file it goes to.

use std::path::Path;
use vstd::prelude::*;
use vstd::string::StringExecFns;

verus! {

/// The stem of the file name that a path ends in, by the standard library's
/// rules for paths on the platform the library is built for: the file name
/// without its extension, or nothing where the path ends in no file name.
pub uninterp spec fn file_stem(path: Seq<char>) -> Option<Seq<char>>;

/// `Path::file_stem` of the standard library, on a path given as text, with
/// the stem as text again. The contract only gives the result its name,
/// `file_stem`: which part of a path is its last component is the standard
/// library's matter.
#[verifier::external_body]
fn file_stem_of(path: &str) -> (stem: Option<String>)
    ensures
        stem.deep_view() == file_stem(path@),
{
    match Path::new(path).file_stem() {
        Some(stem) => match stem.to_str() {
            Some(text) => Some(text.to_string()),
            None => None,
        },
        None => None,
    }
}

/// The title that a file stem gives: the stem itself, or `local` where the
/// path had none.
pub open spec fn title_of_stem(stem: Option<Seq<char>>) -> Seq<char> {
    match stem {
        Some(text) => text,
        None => "local"@,
    }
}

/// The title for a file stem: the stem itself, or `local` where there is none.
pub fn stem_or_local(stem: Option<String>) -> (title: String)
    ensures
        title@ == title_of_stem(stem.deep_view()),
{
    match stem {
        Some(text) => text,
        None => String::from_str("local"),
    }
}

/// The title for the document written to `path`: the stem of its file name,
/// or `local` where the path has no file name.
pub fn extract_filename(path: &str) -> (title: String)
    ensures
        title@ == title_of_stem(file_stem(path@)),
{
    stem_or_local(file_stem_of(path))
}

} // verus!
