//! The tokenizer of the outline format.

use vstd::prelude::*;
use crate::outline::line::{Content, Line};
use crate::parse::{LineSpec, Token};
use crate::serialize::{lemma_domain_text, lemma_link_text, line_text, token_text};
use crate::text::{
    after_first, before_first, count_leading_spaces, find_between, has_char, leading_spaces,
    lemma_clean_start, lemma_find_char_props, lemma_indented, lemma_trim_is_trimmed,
    lemma_trim_start_clean,
    string_between, to_chars, trim, trim_bounds, trim_start, trim_start_bound,
};

verus! {

/// What a line of an outline is, decided on its text `t` without the leading
/// whitespace: `+` followed by anything starts a domain; a line with `=` is a
/// link, split at the first `=`; anything else is an atom.
pub open spec fn classify_outline(t: Seq<char>) -> Token {
    if t.len() > 1 && t[0] == '+' {
        Token::Domain(trim(t.skip(1)))
    } else if has_char(t, '=') {
        Token::Link(trim(before_first(t, '=')), trim(after_first(t, '=')))
    } else {
        Token::Atom(t)
    }
}

/// The tokenized form of one line of an outline: two leading spaces make one
/// indent level, an odd space more is dropped.
pub open spec fn tokenize_outline(line: Seq<char>) -> LineSpec {
    LineSpec { token: classify_outline(trim_start(line)), indent: leading_spaces(line) / 2 }
}

/// Tokenizes the text between `lo` and `hi` as a line of an outline.
pub fn outline_between(chars: &Vec<char>, lo: usize, hi: usize) -> (r: Line)
    requires
        lo <= hi <= chars.len(),
    ensures
        r@ == tokenize_outline(chars@.subrange(lo as int, hi as int)),
{
    let indent = count_leading_spaces(chars, lo, hi) / 2;
    let start = trim_start_bound(chars, lo, hi);
    let ghost t = chars@.subrange(start as int, hi as int);
    if hi - start > 1 && chars[start] == '+' {
        let (a, b) = trim_bounds(chars, start + 1, hi);
        assert(t.skip(1) =~= chars@.subrange(start + 1, hi as int));
        return Line { indent, content: Content::Domain(string_between(chars, a, b)) };
    }
    let p = find_between(chars, start, hi, '=');
    if p < hi {
        let (la, lb) = trim_bounds(chars, start, p);
        let (ra, rb) = trim_bounds(chars, p + 1, hi);
        assert(before_first(t, '=') =~= chars@.subrange(start as int, p as int));
        assert(after_first(t, '=') =~= chars@.subrange(p + 1, hi as int));
        return Line {
            indent,
            content: Content::Link(string_between(chars, la, lb), string_between(chars, ra, rb)),
        };
    }
    Line { indent, content: Content::Atom(string_between(chars, start, hi)) }
}

/// Tokenizes one line of an outline.
pub fn parse_line(line: &str) -> (r: Line)
    ensures
        r@ == tokenize_outline(line@),
{
    let chars = to_chars(line);
    assert(chars@.subrange(0, chars.len() as int) =~= line@);
    outline_between(&chars, 0, chars.len())
}

/// Every line of an outline reads back as itself once it is written out: the
/// text may differ from the one the line was read from in its spacing, and in
/// nothing that the tokenizer sees.
pub proof fn lemma_outline_round_trip(line: Seq<char>)
    ensures
        tokenize_outline(line_text(tokenize_outline(line))) == tokenize_outline(line),
{
    let t = trim_start(line);
    let l = tokenize_outline(line);
    let u = token_text(l.token);
    lemma_trim_start_clean(line);
    lemma_indented(l.indent, u);
    match l.token {
        Token::Atom(_) => {
            lemma_clean_start(t);
        },
        Token::Domain(name) => {
            lemma_trim_is_trimmed(t.skip(1));
            lemma_domain_text(name);
        },
        Token::Link(_, _) => {
            lemma_find_char_props(t, '=', 0);
            lemma_link_text(t);
        },
        _ => {},
    }
}

} // verus!
