//! What the tree builder computes, stated on the tokenized lines alone: which
//! line is the parent of which, and the forest that follows from it.

use vstd::prelude::*;
use crate::node::{well_formed, DomainSpec, KindSpec, Tree};
use crate::parse::{LineSpec, Token};

verus! {

/// Whether a line makes a node that may own children: a domain or a reference.
pub open spec fn owns_children(line: LineSpec) -> bool {
    line.token is Domain || line.token is Reference
}

/// The kind of node that a token makes.
pub open spec fn kind_of(token: Token) -> KindSpec {
    match token {
        Token::PlaceHolder => KindSpec::PlaceHolder,
        Token::Atom(text) => KindSpec::Element(text),
        Token::Comment(text) => KindSpec::Comment(text),
        Token::Link(name, value) => KindSpec::Rail(name, value),
        Token::Domain(name) => KindSpec::Domain(DomainSpec::Category1(name)),
        Token::Reference(name, value) => KindSpec::Domain(DomainSpec::Category2(name, value)),
    }
}

/// The kind of node that a line makes.
pub open spec fn node_kind(line: LineSpec) -> KindSpec {
    kind_of(line.token)
}

/// Line `j` is still open just before line `n`: every line between them is
/// indented deeper than `j`.
pub open spec fn stays_open(lines: Seq<LineSpec>, j: int, n: int) -> bool {
    forall|m: int| j < m < n ==> (#[trigger] lines[m]).indent > lines[j].indent
}

/// Line `j` encloses line `i`: it comes before `i`, owns children, is indented
/// less than `i`, and is still open when `i` arrives.
pub open spec fn encloses(lines: Seq<LineSpec>, j: int, i: int) -> bool {
    &&& 0 <= j < i < lines.len()
    &&& owns_children(lines[j])
    &&& lines[j].indent < lines[i].indent
    &&& stays_open(lines, j, i)
}

/// The last line before `below` that encloses line `i`, if there is one.
pub open spec fn nearest_enclosing(lines: Seq<LineSpec>, i: int, below: int) -> Option<int>
    decreases below,
{
    if below <= 0 {
        None
    } else if encloses(lines, below - 1, i) {
        Some(below - 1)
    } else {
        nearest_enclosing(lines, i, below - 1)
    }
}

/// The parent of line `i`: the nearest line that encloses it. A line that
/// nothing encloses has no parent and makes a root.
pub open spec fn parent_of(lines: Seq<LineSpec>, i: int) -> Option<int> {
    nearest_enclosing(lines, i, i)
}

/// The tree of line `i`: its node over the trees of its children.
pub open spec fn subtree(lines: Seq<LineSpec>, i: int) -> Tree
    decreases lines.len() - i, 0int,
{
    if 0 <= i < lines.len() {
        Tree {
            kind: node_kind(lines[i]),
            rails: children(lines, Some(i), i + 1, lines.len() as int),
        }
    } else {
        Tree { kind: KindSpec::PlaceHolder, rails: Seq::empty() }
    }
}

/// The trees of the lines from `lo` up to `hi` whose parent is `parent`, in
/// source order.
pub open spec fn children(
    lines: Seq<LineSpec>,
    parent: Option<int>,
    lo: int,
    hi: int,
) -> Seq<Tree>
    decreases lines.len() - lo, hi - lo + 1,
{
    if 0 <= lo < hi <= lines.len() {
        let earlier = children(lines, parent, lo, hi - 1);
        if parent_of(lines, hi - 1) == parent {
            earlier.push(subtree(lines, hi - 1))
        } else {
            earlier
        }
    } else {
        Seq::empty()
    }
}

/// The forest of a sequence of lines: the trees of the lines without a
/// parent, in source order.
pub open spec fn forest_of(lines: Seq<LineSpec>) -> Seq<Tree> {
    children(lines, None, 0, lines.len() as int)
}

/// How many of the first `n` lines have no parent.
pub open spec fn count_roots(lines: Seq<LineSpec>, n: int) -> nat
    decreases n,
{
    if n <= 0 {
        0
    } else {
        count_roots(lines, n - 1) + if parent_of(lines, n - 1) is None {
            1nat
        } else {
            0nat
        }
    }
}

/// How many of the first `n` lines have indent 0.
pub open spec fn count_unindented(lines: Seq<LineSpec>, n: int) -> nat
    decreases n,
{
    if n <= 0 {
        0
    } else {
        count_unindented(lines, n - 1) + if lines[n - 1].indent == 0 {
            1nat
        } else {
            0nat
        }
    }
}

/// The last line before `below` that owns children and is indented less than
/// line `i`, whether or not it is still open.
pub open spec fn nearest_shallower_owner(lines: Seq<LineSpec>, i: int, below: int) -> Option<int>
    decreases below,
{
    if below <= 0 {
        None
    } else if owns_children(lines[below - 1]) && lines[below - 1].indent < lines[i].indent {
        Some(below - 1)
    } else {
        nearest_shallower_owner(lines, i, below - 1)
    }
}


/// What `nearest_enclosing` returns: the line it names encloses `i` and no
/// later line before `below` does; when it names none, no line before `below`
/// encloses `i`.
pub proof fn lemma_nearest_enclosing(lines: Seq<LineSpec>, i: int, below: int)
    ensures
        match nearest_enclosing(lines, i, below) {
            Some(p) => {
                &&& 0 <= p < below
                &&& encloses(lines, p, i)
                &&& forall|j: int| p < j < below ==> !encloses(lines, j, i)
            },
            None => forall|j: int| 0 <= j < below ==> !encloses(lines, j, i),
        },
    decreases below,
{
    if below > 0 && !encloses(lines, below - 1, i) {
        lemma_nearest_enclosing(lines, i, below - 1);
    }
}

/// The parent of a line is the one line that encloses it with no enclosing
/// line after it.
pub proof fn lemma_parent_is(lines: Seq<LineSpec>, i: int, p: int)
    requires
        encloses(lines, p, i),
        forall|j: int| p < j < i ==> !encloses(lines, j, i),
    ensures
        parent_of(lines, i) == Some(p),
{
    lemma_nearest_enclosing(lines, i, i);
}

/// A line that nothing encloses has no parent.
pub proof fn lemma_parent_is_none(lines: Seq<LineSpec>, i: int)
    requires
        forall|j: int| 0 <= j < i ==> !encloses(lines, j, i),
    ensures
        parent_of(lines, i) is None,
{
    lemma_nearest_enclosing(lines, i, i);
}

/// A parent encloses its child: it comes first, owns children, is indented
/// less and is still open when the child arrives.
pub proof fn lemma_parent_encloses(lines: Seq<LineSpec>, i: int)
    ensures
        parent_of(lines, i) is Some ==> encloses(lines, parent_of(lines, i)->0, i),
{
    lemma_nearest_enclosing(lines, i, i);
}

/// Lines from `mid` on that do not have `parent` as their parent add nothing
/// to its children.
pub proof fn lemma_children_stable(
    lines: Seq<LineSpec>,
    parent: Option<int>,
    lo: int,
    mid: int,
    hi: int,
)
    requires
        0 <= lo <= mid <= hi <= lines.len(),
        forall|d: int| mid <= d < hi ==> parent_of(lines, d) != parent,
    ensures
        children(lines, parent, lo, hi) == children(lines, parent, lo, mid),
    decreases hi - mid,
{
    if mid < hi {
        lemma_children_stable(lines, parent, lo, mid, hi - 1);
    }
}

/// A line that does not own children has none.
pub proof fn lemma_leaf_has_no_children(lines: Seq<LineSpec>, i: int)
    requires
        0 <= i < lines.len(),
        !owns_children(lines[i]),
    ensures
        subtree(lines, i) == (Tree { kind: node_kind(lines[i]), rails: Seq::empty() }),
{
    assert forall|d: int| i + 1 <= d < lines.len() implies parent_of(lines, d) != Some(i) by {
        lemma_parent_encloses(lines, d);
    }
    lemma_children_stable(lines, Some(i), i + 1, i + 1, lines.len() as int);
}

/// Once a line at or below the indent of line `c` has arrived at index `n`,
/// line `c` gets no more children.
pub proof fn lemma_closed_is_complete(lines: Seq<LineSpec>, c: int, n: int)
    requires
        0 <= c < n <= lines.len(),
        n < lines.len() ==> lines[n].indent <= lines[c].indent,
    ensures
        subtree(lines, c) == (Tree {
            kind: node_kind(lines[c]),
            rails: children(lines, Some(c), c + 1, n),
        }),
{
    assert forall|d: int| n <= d < lines.len() implies parent_of(lines, d) != Some(c) by {
        lemma_parent_encloses(lines, d);
    }
    lemma_children_stable(lines, Some(c), c + 1, n, lines.len() as int);
}

/// A line that is followed at once by a line indented no deeper, or by
/// nothing, has no children.
pub proof fn lemma_closed_at_once_is_empty(lines: Seq<LineSpec>, i: int)
    requires
        0 <= i < lines.len(),
        i + 1 < lines.len() ==> lines[i + 1].indent <= lines[i].indent,
    ensures
        subtree(lines, i).rails.len() == 0,
{
    lemma_closed_is_complete(lines, i, i + 1);
}

/// While line `c` owns children and stays open, every line after it has its
/// parent at `c` or later.
pub proof fn lemma_parent_not_before_open(lines: Seq<LineSpec>, c: int, d: int)
    requires
        0 <= c < d < lines.len(),
        owns_children(lines[c]),
        stays_open(lines, c, d + 1),
    ensures
        parent_of(lines, d) is Some,
        parent_of(lines, d)->0 >= c,
{
    assert(encloses(lines, c, d));
    lemma_nearest_enclosing(lines, d, d);
}

/// While line `c` owns children and stays open up to `n`, an earlier parent
/// (or the forest) gets no child between `c` and `n`.
pub proof fn lemma_children_behind_open(
    lines: Seq<LineSpec>,
    parent: Option<int>,
    lo: int,
    c: int,
    n: int,
)
    requires
        0 <= lo <= c < n <= lines.len(),
        owns_children(lines[c]),
        stays_open(lines, c, n),
        parent is Some ==> parent->0 < c,
    ensures
        children(lines, parent, lo, n) == children(lines, parent, lo, c + 1),
{
    assert forall|d: int| c + 1 <= d < n implies parent_of(lines, d) != parent by {
        lemma_parent_not_before_open(lines, c, d);
    }
    lemma_children_stable(lines, parent, lo, c + 1, n);
}

/// The forest has one tree for each line without a parent.
pub proof fn lemma_forest_len(lines: Seq<LineSpec>)
    ensures
        forest_of(lines).len() == count_roots(lines, lines.len() as int),
{
    lemma_children_count(lines, lines.len() as int);
}

/// Up to any line, the forest has one tree for each line without a parent.
proof fn lemma_children_count(lines: Seq<LineSpec>, hi: int)
    requires
        0 <= hi <= lines.len(),
    ensures
        children(lines, None, 0, hi).len() == count_roots(lines, hi),
    decreases hi,
{
    if hi > 0 {
        lemma_children_count(lines, hi - 1);
    }
}

/// A line with indent 0 has no parent: it makes a root.
pub proof fn lemma_unindented_is_root(lines: Seq<LineSpec>, i: int)
    requires
        0 <= i < lines.len(),
        lines[i].indent == 0,
    ensures
        parent_of(lines, i) is None,
{
    lemma_parent_encloses(lines, i);
}

/// Where every root has indent 0, the forest has as many trees as there are
/// lines with indent 0. (An indented line that nothing encloses makes a root
/// too, so without that the forest is the larger.)
pub proof fn lemma_forest_len_is_unindented(lines: Seq<LineSpec>)
    requires
        forall|i: int| 0 <= i < lines.len() && parent_of(lines, i) is None ==> lines[i].indent == 0,
    ensures
        forest_of(lines).len() == count_unindented(lines, lines.len() as int),
{
    lemma_forest_len(lines);
    lemma_roots_are_unindented(lines, lines.len() as int);
}

/// Where every root among the first `n` lines has indent 0, the roots among
/// them are the lines with indent 0.
proof fn lemma_roots_are_unindented(lines: Seq<LineSpec>, n: int)
    requires
        0 <= n <= lines.len(),
        forall|i: int| 0 <= i < n && parent_of(lines, i) is None ==> lines[i].indent == 0,
    ensures
        count_roots(lines, n) == count_unindented(lines, n),
    decreases n,
{
    if n > 0 {
        lemma_roots_are_unindented(lines, n - 1);
        if lines[n - 1].indent == 0 {
            lemma_unindented_is_root(lines, n - 1);
        }
    }
}

/// In any case the forest has at least as many trees as there are lines with
/// indent 0.
pub proof fn lemma_forest_len_at_least_unindented(lines: Seq<LineSpec>)
    ensures
        forest_of(lines).len() >= count_unindented(lines, lines.len() as int),
{
    lemma_forest_len(lines);
    lemma_roots_at_least_unindented(lines, lines.len() as int);
}

/// Among the first `n` lines there are at least as many roots as lines with
/// indent 0.
proof fn lemma_roots_at_least_unindented(lines: Seq<LineSpec>, n: int)
    requires
        0 <= n <= lines.len(),
    ensures
        count_roots(lines, n) >= count_unindented(lines, n),
    decreases n,
{
    if n > 0 {
        lemma_roots_at_least_unindented(lines, n - 1);
        if lines[n - 1].indent == 0 {
            lemma_unindented_is_root(lines, n - 1);
        }
    }
}

/// What `nearest_shallower_owner` returns: the line it names owns children
/// and is indented less than line `i`, and no later line before `below` is
/// such; when it names none, no line before `below` is such.
pub proof fn lemma_nearest_shallower_owner(lines: Seq<LineSpec>, i: int, below: int)
    ensures
        match nearest_shallower_owner(lines, i, below) {
            Some(p) => {
                &&& 0 <= p < below
                &&& owns_children(lines[p])
                &&& lines[p].indent < lines[i].indent
                &&& forall|j: int|
                    p < j < below ==> !(owns_children(#[trigger] lines[j]) && lines[j].indent
                        < lines[i].indent)
            },
            None => forall|j: int|
                0 <= j < below ==> !(owns_children(#[trigger] lines[j]) && lines[j].indent
                    < lines[i].indent),
        },
    decreases below,
{
    if below > 0 && !(owns_children(lines[below - 1]) && lines[below - 1].indent
        < lines[i].indent) {
        lemma_nearest_shallower_owner(lines, i, below - 1);
    }
}

/// The parent of a line is the nearest line before it that owns children and
/// is indented less, exactly when that line is still open on its arrival (or
/// there is no such line, and the line is a root). Where a shallower line in
/// between has closed it, the parent lies further back, or there is none.
pub proof fn lemma_parent_is_nearest_shallower_owner(lines: Seq<LineSpec>, i: int)
    requires
        0 <= i < lines.len(),
    ensures
        parent_of(lines, i) == nearest_shallower_owner(lines, i, i) <==> (nearest_shallower_owner(
            lines,
            i,
            i,
        ) matches Some(j) ==> stays_open(lines, j, i)),
{
    lemma_nearest_shallower_owner(lines, i, i);
    lemma_nearest_enclosing(lines, i, i);
    let nearest = nearest_shallower_owner(lines, i, i);
    if nearest is Some && stays_open(lines, nearest->0, i) {
        lemma_parent_is(lines, i, nearest->0);
    }
}

/// Every tree among the children of a parent is the tree of a line of that
/// parent.
pub proof fn lemma_children_are_subtrees(
    lines: Seq<LineSpec>,
    parent: Option<int>,
    lo: int,
    hi: int,
    k: int,
) -> (d: int)
    requires
        0 <= k < children(lines, parent, lo, hi).len(),
    ensures
        lo <= d < hi,
        0 <= d < lines.len(),
        parent_of(lines, d) == parent,
        children(lines, parent, lo, hi)[k] == subtree(lines, d),
    decreases hi - lo,
{
    let earlier = children(lines, parent, lo, hi - 1);
    if k < earlier.len() {
        lemma_children_are_subtrees(lines, parent, lo, hi - 1, k)
    } else {
        hi - 1
    }
}

/// In the tree of a line, only domains have children, all the way down.
pub proof fn lemma_subtree_well_formed(lines: Seq<LineSpec>, i: int)
    requires
        0 <= i < lines.len(),
    ensures
        well_formed(subtree(lines, i)),
    decreases lines.len() - i,
{
    let t = subtree(lines, i);
    if !owns_children(lines[i]) {
        lemma_leaf_has_no_children(lines, i);
    }
    assert forall|k: int| 0 <= k < t.rails.len() implies well_formed(#[trigger] t.rails[k]) by {
        let d = lemma_children_are_subtrees(lines, Some(i), i + 1, lines.len() as int, k);
        lemma_subtree_well_formed(lines, d);
    }
}

/// In every tree of the forest, only domains have children.
pub proof fn lemma_forest_well_formed(lines: Seq<LineSpec>)
    ensures
        forall|k: int|
            0 <= k < forest_of(lines).len() ==> well_formed(#[trigger] forest_of(lines)[k]),
{
    assert forall|k: int| 0 <= k < forest_of(lines).len() implies well_formed(
        #[trigger] forest_of(lines)[k],
    ) by {
        let d = lemma_children_are_subtrees(lines, None, 0, lines.len() as int, k);
        lemma_subtree_well_formed(lines, d);
    }
}

} // verus!
