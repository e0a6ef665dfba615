//! Walking a forest: the nodes of a forest, taken root first and children in
//! order, are the nodes of the lines in source order.

use vstd::prelude::*;
use crate::forest::{
    children, forest_of, lemma_children_stable, lemma_leaf_has_no_children,
    lemma_nearest_enclosing, lemma_parent_encloses, lemma_parent_is, lemma_parent_is_none,
    lemma_parent_not_before_open, encloses, node_kind, owns_children, parent_of, stays_open,
    subtree,
};
use crate::node::{KindSpec, Tree};
use crate::parse::LineSpec;

verus! {

/// The kinds of the nodes of a tree: the root first, then its children's in
/// order, each child with all that is below it.
pub open spec fn preorder(t: Tree) -> Seq<KindSpec>
    decreases t,
{
    seq![t.kind] + preorder_all(t.rails)
}

/// The kinds of the nodes of a sequence of trees, one tree after the other.
pub open spec fn preorder_all(ts: Seq<Tree>) -> Seq<KindSpec>
    decreases ts,
{
    if ts.len() == 0 {
        Seq::empty()
    } else {
        preorder_all(ts.drop_last()) + preorder(ts.last())
    }
}

/// The kinds of the nodes that the lines make, in source order.
pub open spec fn kinds(lines: Seq<LineSpec>) -> Seq<KindSpec> {
    Seq::new(lines.len(), |i: int| node_kind(lines[i]))
}

/// The first line at or after `m` that is indented no deeper than line `c`,
/// or the number of lines when there is none.
pub open spec fn first_not_deeper(lines: Seq<LineSpec>, c: int, m: int) -> int
    decreases lines.len() - m,
{
    if m < 0 || m >= lines.len() {
        lines.len() as int
    } else if lines[m].indent <= lines[c].indent {
        m
    } else {
        first_not_deeper(lines, c, m + 1)
    }
}

/// Where the lines below line `c` end: at the first later line indented no
/// deeper, for a line that owns children; right behind it otherwise.
pub open spec fn extent_end(lines: Seq<LineSpec>, c: int) -> int {
    if owns_children(lines[c]) {
        first_not_deeper(lines, c, c + 1)
    } else {
        c + 1
    }
}

/// Where the lines below a parent end; all lines are below the forest.
pub open spec fn span_end(lines: Seq<LineSpec>, parent: Option<int>) -> int {
    match parent {
        Some(q) => extent_end(lines, q),
        None => lines.len() as int,
    }
}

/// What `first_not_deeper` returns.
proof fn lemma_first_not_deeper(lines: Seq<LineSpec>, c: int, m: int)
    requires
        0 <= m <= lines.len(),
    ensures
        m <= first_not_deeper(lines, c, m) <= lines.len(),
        forall|k: int|
            m <= k < first_not_deeper(lines, c, m) ==> (#[trigger] lines[k]).indent
                > lines[c].indent,
        first_not_deeper(lines, c, m) < lines.len() ==> lines[first_not_deeper(lines, c, m)].indent
            <= lines[c].indent,
    decreases lines.len() - m,
{
    if m < lines.len() && lines[m].indent > lines[c].indent {
        lemma_first_not_deeper(lines, c, m + 1);
    }
}

/// The lines below a line lie behind it; a line that owns children stays open
/// up to their end, and the line at their end is indented no deeper.
pub proof fn lemma_extent(lines: Seq<LineSpec>, c: int)
    requires
        0 <= c < lines.len(),
    ensures
        c < extent_end(lines, c) <= lines.len(),
        owns_children(lines[c]) ==> stays_open(lines, c, extent_end(lines, c)),
        owns_children(lines[c]) && extent_end(lines, c) < lines.len() ==> lines[extent_end(
            lines,
            c,
        )].indent <= lines[c].indent,
{
    lemma_first_not_deeper(lines, c, c + 1);
}

/// A child lies below its parent, and so does all that lies below the child.
pub proof fn lemma_child_extent(lines: Seq<LineSpec>, c: int)
    requires
        0 <= c < lines.len(),
    ensures
        c < extent_end(lines, c) <= span_end(lines, parent_of(lines, c)) <= lines.len(),
        parent_of(lines, c) matches Some(q) ==> 0 <= q < c && owns_children(lines[q]),
{
    lemma_extent(lines, c);
    lemma_parent_encloses(lines, c);
    if parent_of(lines, c) is Some {
        lemma_extent(lines, parent_of(lines, c)->0);
    }
}

/// Every line below line `c` has its parent at `c` or later.
proof fn lemma_below_has_later_parent(lines: Seq<LineSpec>, c: int, d: int)
    requires
        0 <= c < d < extent_end(lines, c),
        c < lines.len(),
    ensures
        parent_of(lines, d) is Some,
        parent_of(lines, d)->0 >= c,
{
    lemma_extent(lines, c);
    lemma_parent_not_before_open(lines, c, d);
}

/// The line right behind all that lies below line `c` has the parent that
/// `c` has, where it still lies below that parent.
proof fn lemma_next_sibling(lines: Seq<LineSpec>, c: int)
    requires
        0 <= c < lines.len(),
        extent_end(lines, c) < span_end(lines, parent_of(lines, c)),
    ensures
        parent_of(lines, extent_end(lines, c)) == parent_of(lines, c),
{
    let x = extent_end(lines, c);
    let p = parent_of(lines, c);
    lemma_extent(lines, c);
    lemma_nearest_enclosing(lines, c, c);
    let low = match p {
        Some(q) => q,
        None => -1,
    };
    assert forall|j: int| low < j < x implies !encloses(lines, j, x) by {
        if encloses(lines, j, x) && j < c {
            assert(encloses(lines, j, c));
        }
    }
    match p {
        Some(q) => {
            lemma_extent(lines, q);
            lemma_parent_is(lines, x, q);
        },
        None => {
            lemma_parent_is_none(lines, x);
        },
    }
}

/// The children of a parent in a range are those in its first part, then
/// those in the rest.
proof fn lemma_children_split(
    lines: Seq<LineSpec>,
    parent: Option<int>,
    lo: int,
    mid: int,
    hi: int,
)
    requires
        0 <= lo <= mid <= hi <= lines.len(),
    ensures
        children(lines, parent, lo, hi) == children(lines, parent, lo, mid) + children(
            lines,
            parent,
            mid,
            hi,
        ),
    decreases hi - mid,
{
    if mid < hi {
        lemma_children_split(lines, parent, lo, mid, hi - 1);
    }
}

/// Walking two sequences of trees one after the other is walking the one,
/// then the other.
proof fn lemma_preorder_all_add(a: Seq<Tree>, b: Seq<Tree>)
    ensures
        preorder_all(a + b) == preorder_all(a) + preorder_all(b),
    decreases b.len(),
{
    if b.len() > 0 {
        assert((a + b).drop_last() =~= a + b.drop_last());
        lemma_preorder_all_add(a, b.drop_last());
    }
}

/// Whether line `lo` is where a child of `parent` starts, or where the lines
/// below `parent` end.
spec fn at_child_or_end(lines: Seq<LineSpec>, parent: Option<int>, lo: int) -> bool {
    &&& 0 <= lo <= span_end(lines, parent) <= lines.len()
    &&& parent matches Some(q) ==> 0 <= q < lo
    &&& lo == span_end(lines, parent) || parent_of(lines, lo) == parent
}

/// Walking the children of a parent from one of them on gives the nodes of
/// the lines from there to the end of the lines below the parent.
proof fn lemma_walk(lines: Seq<LineSpec>, parent: Option<int>, lo: int)
    requires
        at_child_or_end(lines, parent, lo),
    ensures
        preorder_all(children(lines, parent, lo, span_end(lines, parent))) == kinds(
            lines,
        ).subrange(lo, span_end(lines, parent)),
    decreases span_end(lines, parent) - lo,
{
    let end = span_end(lines, parent);
    let all = kinds(lines);
    if lo < end {
        let c = lo;
        let e = extent_end(lines, c);
        lemma_extent(lines, c);
        lemma_child_extent(lines, c);
        // The tree of `c` alone stands for the lines from `c` to `e`.
        assert forall|d: int| c + 1 <= d < e implies parent_of(lines, d) != parent by {
            lemma_below_has_later_parent(lines, c, d);
        }
        lemma_children_stable(lines, parent, c, c + 1, e);
        assert(children(lines, parent, c, c) =~= Seq::<Tree>::empty());
        lemma_children_split(lines, parent, lo, e, end);
        lemma_preorder_all_add(seq![subtree(lines, c)], children(lines, parent, e, end));
        assert(seq![subtree(lines, c)].drop_last() =~= Seq::<Tree>::empty());
        assert(preorder_all(Seq::<Tree>::empty()) =~= Seq::<KindSpec>::empty());
        // Below `c`.
        if owns_children(lines[c]) {
            lemma_walk(lines, Some(c), c + 1);
            assert forall|d: int| e <= d < lines.len() implies parent_of(lines, d) != Some(c) by {
                lemma_parent_encloses(lines, d);
            }
            lemma_children_stable(lines, Some(c), c + 1, e, lines.len() as int);
        } else {
            lemma_leaf_has_no_children(lines, c);
        }
        assert(preorder(subtree(lines, c)) =~= all.subrange(c, e));
        // Behind `c`.
        if e < end {
            lemma_next_sibling(lines, c);
        }
        lemma_walk(lines, parent, e);
    }
}

/// Every line makes one node, and walking the forest gives these nodes in
/// source order: nothing is lost, nothing comes twice, and children stand in
/// the order of their lines.
pub proof fn lemma_forest_keeps_source_order(lines: Seq<LineSpec>)
    ensures
        preorder_all(forest_of(lines)) == kinds(lines),
{
    lemma_walk(lines, None, 0);
}

} // verus!
