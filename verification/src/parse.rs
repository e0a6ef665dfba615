//! The line tokenizer and the tree builder.

use vstd::prelude::*;
use crate::builder::{
    attach, building, close_open, closed_above, lemma_step_leaf, lemma_step_push,
};
use crate::forest::{forest_of, lemma_forest_well_formed, node_kind, owns_children};
use crate::node::{lemma_node_view, trees, well_formed, DomainType, Node, NodeType, Tree};
use crate::text::{
    after_first, before_first, bounds_of, count_leading_spaces, find_between, has_char,
    leading_spaces, lemma_trim_is_trimmed, lemma_trim_start_clean, nonblank_line_bounds,
    nonblank_lines, starts_clean, string_between, to_chars, trim, trim_bounds, trim_start,
    trim_start_bound,
};
use crate::traversal::{kinds, lemma_forest_keeps_source_order, preorder_all};

verus! {

/// One tokenized line: what it is, the text it carries, and its indent level
/// as the last field.
#[derive(Debug)]
pub enum LineContent {
    PlaceHolder(usize),
    Atom(String, usize),
    Comment(String, usize),
    Link(String, String, usize),
    Domain(String, usize),
    Reference(String, String, usize),
}

/// What a line is, over sequences of characters.
pub enum Token {
    PlaceHolder,
    Atom(Seq<char>),
    Comment(Seq<char>),
    Link(Seq<char>, Seq<char>),
    Domain(Seq<char>),
    Reference(Seq<char>, Seq<char>),
}

/// A tokenized line: its token and its indent level.
pub struct LineSpec {
    pub token: Token,
    pub indent: nat,
}

impl View for LineContent {
    type V = LineSpec;

    open spec fn view(&self) -> LineSpec {
        match self {
            LineContent::PlaceHolder(indent) => LineSpec {
                token: Token::PlaceHolder,
                indent: *indent as nat,
            },
            LineContent::Atom(text, indent) => LineSpec {
                token: Token::Atom(text@),
                indent: *indent as nat,
            },
            LineContent::Comment(text, indent) => LineSpec {
                token: Token::Comment(text@),
                indent: *indent as nat,
            },
            LineContent::Link(name, value, indent) => LineSpec {
                token: Token::Link(name@, value@),
                indent: *indent as nat,
            },
            LineContent::Domain(name, indent) => LineSpec {
                token: Token::Domain(name@),
                indent: *indent as nat,
            },
            LineContent::Reference(name, value, indent) => LineSpec {
                token: Token::Reference(name@, value@),
                indent: *indent as nat,
            },
        }
    }
}

/// The views of a sequence of tokenized lines, in order.
pub open spec fn line_views(lines: Seq<LineContent>) -> Seq<LineSpec> {
    Seq::new(lines.len(), |i: int| lines[i]@)
}

/// What a line is, decided on its text `t` without the leading whitespace.
/// The rules apply in this order: a lone `#` holds a place; `#` followed by
/// anything but a space starts a comment; `+` followed by anything starts a
/// domain, or a reference when a `>` occurs after it; a line with `=` is a
/// link, split at the first `=`; anything else is an atom.
pub open spec fn classify(t: Seq<char>) -> Token {
    if t.len() == 1 && t[0] == '#' {
        Token::PlaceHolder
    } else if t.len() > 1 && t[0] == '#' && t[1] != ' ' {
        Token::Comment(trim(t.skip(1)))
    } else if t.len() > 1 && t[0] == '+' {
        let rest = trim(t.skip(1));
        if has_char(rest, '>') {
            Token::Reference(trim(before_first(rest, '>')), trim(after_first(rest, '>')))
        } else {
            Token::Domain(rest)
        }
    } else if has_char(t, '=') {
        Token::Link(trim(before_first(t, '=')), trim(after_first(t, '=')))
    } else {
        Token::Atom(t)
    }
}

/// The tokenized form of one line: two leading spaces make one indent level,
/// an odd space more is dropped, and the token is decided on the line without
/// its leading whitespace.
pub open spec fn tokenize(line: Seq<char>) -> LineSpec {
    LineSpec { token: classify(trim_start(line)), indent: leading_spaces(line) / 2 }
}

/// The tokenized lines of a text: each line that holds more than whitespace,
/// tokenized, in order.
pub open spec fn tokenize_text(s: Seq<char>) -> Seq<LineSpec> {
    Seq::new(nonblank_lines(s).len(), |i: int| tokenize(nonblank_lines(s)[i]))
}

/// Whether every text of a token is free of leading whitespace.
pub open spec fn texts_start_clean(token: Token) -> bool {
    match token {
        Token::PlaceHolder => true,
        Token::Atom(text) => starts_clean(text),
        Token::Comment(text) => starts_clean(text),
        Token::Link(name, value) => starts_clean(name) && starts_clean(value),
        Token::Domain(name) => starts_clean(name),
        Token::Reference(name, value) => starts_clean(name) && starts_clean(value),
    }
}

/// The indent level of a line is half the number of its leading spaces,
/// rounded down, and no text of its token starts with whitespace.
pub proof fn lemma_tokenize_indent_and_texts(line: Seq<char>)
    ensures
        tokenize(line).indent == leading_spaces(line) / 2,
        texts_start_clean(tokenize(line).token),
{
    let t = trim_start(line);
    lemma_trim_start_clean(line);
    if t.len() > 1 {
        let rest = trim(t.skip(1));
        lemma_trim_is_trimmed(t.skip(1));
        lemma_trim_is_trimmed(before_first(rest, '>'));
        lemma_trim_is_trimmed(after_first(rest, '>'));
    }
    lemma_trim_is_trimmed(before_first(t, '='));
    lemma_trim_is_trimmed(after_first(t, '='));
}

/// Tokenizes the text between `lo` and `hi`.
fn tokenize_between(chars: &Vec<char>, lo: usize, hi: usize) -> (r: LineContent)
    requires
        lo <= hi <= chars.len(),
    ensures
        r@ == tokenize(chars@.subrange(lo as int, hi as int)),
{
    let ghost line = chars@.subrange(lo as int, hi as int);
    let indent = count_leading_spaces(chars, lo, hi) / 2;
    let start = trim_start_bound(chars, lo, hi);
    let ghost t = chars@.subrange(start as int, hi as int);
    let len = hi - start;
    if len == 1 && chars[start] == '#' {
        return LineContent::PlaceHolder(indent);
    }
    if len > 1 && chars[start] == '#' && chars[start + 1] != ' ' {
        let (a, b) = trim_bounds(chars, start + 1, hi);
        assert(t.skip(1) =~= chars@.subrange(start + 1, hi as int));
        return LineContent::Comment(string_between(chars, a, b), indent);
    }
    if len > 1 && chars[start] == '+' {
        let (a, b) = trim_bounds(chars, start + 1, hi);
        assert(t.skip(1) =~= chars@.subrange(start + 1, hi as int));
        let ghost rest = chars@.subrange(a as int, b as int);
        let p = find_between(chars, a, b, '>');
        if p < b {
            let (la, lb) = trim_bounds(chars, a, p);
            let (ra, rb) = trim_bounds(chars, p + 1, b);
            assert(before_first(rest, '>') =~= chars@.subrange(a as int, p as int));
            assert(after_first(rest, '>') =~= chars@.subrange(p + 1, b as int));
            return LineContent::Reference(
                string_between(chars, la, lb),
                string_between(chars, ra, rb),
                indent,
            );
        }
        return LineContent::Domain(string_between(chars, a, b), indent);
    }
    let p = find_between(chars, start, hi, '=');
    if p < hi {
        let (la, lb) = trim_bounds(chars, start, p);
        let (ra, rb) = trim_bounds(chars, p + 1, hi);
        assert(before_first(t, '=') =~= chars@.subrange(start as int, p as int));
        assert(after_first(t, '=') =~= chars@.subrange(p + 1, hi as int));
        return LineContent::Link(
            string_between(chars, la, lb),
            string_between(chars, ra, rb),
            indent,
        );
    }
    LineContent::Atom(string_between(chars, start, hi), indent)
}

/// Tokenizes one line.
pub fn parse_line(line: &str) -> (r: LineContent)
    ensures
        r@ == tokenize(line@),
{
    let chars = to_chars(line);
    assert(chars@.subrange(0, chars.len() as int) =~= line@);
    tokenize_between(&chars, 0, chars.len())
}

/// Tokenizes a text line by line, leaving out the blank lines.
pub fn parse_lines(input: &str) -> (r: Vec<LineContent>)
    ensures
        line_views(r@) == tokenize_text(input@),
{
    let chars = to_chars(input);
    let bounds = nonblank_line_bounds(&chars);
    let mut out: Vec<LineContent> = Vec::new();
    let mut i: usize = 0;
    while i < bounds.len()
        invariant
            i <= bounds.len(),
            out.len() == i,
            bounds_of(chars@, bounds@, nonblank_lines(chars@)),
            forall|k: int| 0 <= k < i ==> out@[k]@ == tokenize(nonblank_lines(chars@)[k]),
        decreases bounds.len() - i,
    {
        let (lo, hi) = bounds[i];
        out.push(tokenize_between(&chars, lo, hi));
        i += 1;
    }
    out
}

impl LineContent {
    /// The indent level of the line.
    pub fn indent(&self) -> (n: usize)
        ensures
            n == self@.indent,
    {
        match self {
            LineContent::PlaceHolder(indent) => *indent,
            LineContent::Atom(_, indent) => *indent,
            LineContent::Comment(_, indent) => *indent,
            LineContent::Link(_, _, indent) => *indent,
            LineContent::Domain(_, indent) => *indent,
            LineContent::Reference(_, _, indent) => *indent,
        }
    }

    /// Whether the line makes a node that may own children.
    pub fn opens_domain(&self) -> (b: bool)
        ensures
            b == owns_children(self@),
    {
        match self {
            LineContent::Domain(_, _) => true,
            LineContent::Reference(_, _, _) => true,
            _ => false,
        }
    }

    /// The node that the line makes, without children yet.
    pub fn to_node(&self) -> (node: Node)
        ensures
            node@ == (Tree { kind: node_kind(self@), rails: Seq::empty() }),
    {
        let node_type = match self {
            LineContent::PlaceHolder(_) => NodeType::PlaceHolder,
            LineContent::Atom(text, _) => NodeType::Element(text.clone()),
            LineContent::Comment(text, _) => NodeType::Comment(text.clone()),
            LineContent::Link(name, value, _) => NodeType::Rail(name.clone(), value.clone()),
            LineContent::Domain(name, _) => NodeType::Domain(DomainType::Category1(name.clone())),
            LineContent::Reference(name, value, _) => NodeType::Domain(
                DomainType::Category2(name.clone(), value.clone()),
            ),
        };
        let node = Node { node_type, rails: Vec::new() };
        proof {
            lemma_node_view(node);
            assert(trees(node.rails@) =~= Seq::empty());
        }
        node
    }
}

/// Builds the forest of a sequence of tokenized lines. Each line makes one
/// node; a node hangs under the nearest line before it that owns children, is
/// indented less and is still open, or stands as a root when there is none.
/// So only domains get children, and walking the forest gives the nodes of
/// the lines in source order.
pub fn into_nodes(lines: &Vec<LineContent>) -> (forest: Vec<Node>)
    ensures
        trees(forest@) == forest_of(line_views(lines@)),
        forall|i: int| 0 <= i < forest.len() ==> well_formed(#[trigger] forest[i]@),
        preorder_all(trees(forest@)) == kinds(line_views(lines@)),
{
    let ghost all = line_views(lines@);
    let mut forest: Vec<Node> = Vec::new();
    let mut stack: Vec<(usize, Node)> = Vec::new();
    let ghost mut open: Seq<int> = Seq::empty();
    let mut n: usize = 0;
    proof {
        assert(trees(forest@) =~= Seq::empty());
    }
    while n < lines.len()
        invariant
            n <= lines.len(),
            all == line_views(lines@),
            building(all, n as int, open, stack@, forest@),
            closed_above(all, n as int, open),
        decreases lines.len() - n,
    {
        let line = &lines[n];
        let indent = line.indent();
        let Ghost(left) = close_open(
            &mut stack,
            &mut forest,
            indent,
            Ghost(all),
            Ghost(n as int),
            Ghost(open),
        );
        let node = line.to_node();
        let ghost stack0 = stack@;
        let ghost forest0 = forest@;
        if line.opens_domain() {
            stack.push((indent, node));
            proof {
                lemma_step_push(all, n as int, left, stack0, forest0, node);
                open = left.push(n as int);
            }
        } else {
            attach(&mut stack, &mut forest, node);
            proof {
                lemma_step_leaf(all, n as int, left, stack0, forest0, node, stack@, forest@);
                open = left;
            }
        }
        n += 1;
    }
    let Ghost(left) = close_open(
        &mut stack,
        &mut forest,
        0,
        Ghost(all),
        Ghost(n as int),
        Ghost(open),
    );
    proof {
        lemma_forest_keeps_source_order(all);
        lemma_forest_well_formed(all);
        assert forall|i: int| 0 <= i < forest.len() implies well_formed(#[trigger] forest[i]@) by {
            assert(well_formed(forest_of(all)[i]));
        }
    }
    forest
}

} // verus!
