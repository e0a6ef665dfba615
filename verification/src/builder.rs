//! The state of the tree builder while it walks the lines: the stack of open
//! domains, what it holds after each line, and why each step keeps it so.
//!
//! The stack owns the nodes of the open domains. A node that owns no children
//! goes to the top of the stack at once; a domain stays on the stack with the
//! children it has so far, and goes to the entry below it, or to the forest,
//! when a line indented no deeper closes it or the lines end.

use vstd::prelude::*;
use crate::forest::{
    children, encloses, lemma_children_behind_open, lemma_closed_is_complete,
    lemma_leaf_has_no_children, lemma_nearest_enclosing, lemma_parent_encloses, lemma_parent_is,
    lemma_parent_is_none, node_kind, owns_children, parent_of, stays_open, subtree,
};
use crate::node::{lemma_node_view, lemma_trees_push, trees, Node, Tree};
use crate::parse::LineSpec;

verus! {

/// Where the children of the open line at stack position `k` end so far: at
/// the next open line, or at `n` for the top of the stack.
pub(crate) open spec fn reach(open: Seq<int>, k: int, n: int) -> int {
    if k + 1 < open.len() {
        open[k + 1]
    } else {
        n
    }
}

/// The stack entry at position `k` after the first `n` lines: it stands for
/// the open line `open[k]`, whose parent is the entry below it, and its node
/// holds the finished trees of its children before the next open line.
pub(crate) open spec fn entry(
    lines: Seq<LineSpec>,
    n: int,
    open: Seq<int>,
    stack: Seq<(usize, Node)>,
    k: int,
) -> bool {
    &&& 0 <= open[k] < n
    &&& owns_children(lines[open[k]])
    &&& stack[k].0 == lines[open[k]].indent
    &&& stays_open(lines, open[k], n)
    &&& parent_of(lines, open[k]) == (if k == 0 {
        None
    } else {
        Some(open[k - 1])
    })
    &&& stack[k].1@ == (Tree {
        kind: node_kind(lines[open[k]]),
        rails: children(lines, Some(open[k]), open[k] + 1, reach(open, k, n)),
    })
}

/// The open lines stand on the stack in source order, each indented deeper
/// than those below it.
pub(crate) open spec fn ordered(lines: Seq<LineSpec>, open: Seq<int>) -> bool {
    forall|k1: int, k2: int|
        0 <= k1 < k2 < open.len() ==> {
            &&& #[trigger] open[k1] < #[trigger] open[k2]
            &&& lines[open[k1]].indent < lines[open[k2]].indent
        }
}

/// The state of the builder after the first `n` lines: `open` names the lines
/// on the stack, bottom first, and the forest holds the finished roots before
/// the bottom of the stack.
pub(crate) open spec fn building(
    lines: Seq<LineSpec>,
    n: int,
    open: Seq<int>,
    stack: Seq<(usize, Node)>,
    forest: Seq<Node>,
) -> bool {
    &&& 0 <= n <= lines.len()
    &&& open.len() == stack.len()
    &&& forall|k: int| 0 <= k < open.len() ==> #[trigger] entry(lines, n, open, stack, k)
    &&& ordered(lines, open)
    &&& trees(forest) == children(lines, None, 0, reach(open, -1, n))
}

/// The line on top of the stack, or -1 when the stack is empty.
pub(crate) open spec fn top_line(open: Seq<int>) -> int {
    if open.len() > 0 {
        open.last()
    } else {
        -1
    }
}

/// No line above the top of the stack is an open owner indented less than
/// `limit`: none of them can be the parent of a line that arrives at `n` with
/// indent `limit`.
pub(crate) open spec fn none_above(
    lines: Seq<LineSpec>,
    n: int,
    open: Seq<int>,
    limit: int,
) -> bool {
    forall|j: int|
        top_line(open) < j < n ==> !(owns_children(#[trigger] lines[j]) && stays_open(lines, j, n)
            && lines[j].indent < limit)
}

/// Every line above the top of the stack is closed or owns no children.
pub(crate) open spec fn closed_above(lines: Seq<LineSpec>, n: int, open: Seq<int>) -> bool {
    forall|j: int|
        top_line(open) < j < n ==> !(owns_children(#[trigger] lines[j]) && stays_open(lines, j, n))
}

/// Handing `node` down, as a relation between the stack and the forest before
/// and after: the node on top of the stack gets `node` as its last child, or
/// the forest gets it as its last root when the stack is empty.
pub(crate) open spec fn attached(
    stack: Seq<(usize, Node)>,
    forest: Seq<Node>,
    node: Node,
    stack2: Seq<(usize, Node)>,
    forest2: Seq<Node>,
) -> bool {
    if stack.len() == 0 {
        stack2 == stack && forest2 == forest.push(node)
    } else {
        &&& forest2 == forest
        &&& stack2.len() == stack.len()
        &&& forall|k: int| 0 <= k < stack.len() - 1 ==> stack2[k] == stack[k]
        &&& stack2.last().0 == stack.last().0
        &&& stack2.last().1@ == (Tree {
            kind: stack.last().1@.kind,
            rails: stack.last().1@.rails.push(node@),
        })
    }
}

/// Hands a finished node to the node on top of the stack as its last child,
/// or to the forest when the stack is empty.
pub(crate) fn attach(stack: &mut Vec<(usize, Node)>, forest: &mut Vec<Node>, node: Node)
    ensures
        attached(old(stack)@, old(forest)@, node, final(stack)@, final(forest)@),
{
    match stack.pop() {
        Some((indent, parent)) => {
            let mut parent = parent;
            proof {
                lemma_node_view(parent);
                lemma_trees_push(parent.rails@, node);
            }
            parent.rails.push(node);
            proof {
                lemma_node_view(parent);
            }
            stack.push((indent, parent));
        },
        None => {
            forest.push(node);
        },
    }
}

/// After the stack was closed down for line `n`, what is left on top of it is
/// the parent of line `n`, and every entry is indented less than line `n`.
proof fn lemma_top_is_parent(
    lines: Seq<LineSpec>,
    n: int,
    open: Seq<int>,
    stack: Seq<(usize, Node)>,
    forest: Seq<Node>,
)
    requires
        n < lines.len(),
        building(lines, n, open, stack, forest),
        none_above(lines, n, open, lines[n].indent as int),
        open.len() > 0 ==> lines[open.last()].indent < lines[n].indent,
    ensures
        parent_of(lines, n) == (if open.len() > 0 {
            Some(open.last())
        } else {
            None
        }),
        forall|k: int| 0 <= k < open.len() ==> lines[#[trigger] open[k]].indent < lines[n].indent,
{
    if open.len() > 0 {
        let last = open.len() - 1;
        let t = open[last];
        assert(entry(lines, n, open, stack, last));
        lemma_parent_is(lines, n, t);
    } else {
        lemma_parent_is_none(lines, n);
    }
}

/// An entry that is not on top of the stack is untouched when the top is
/// popped and handed down.
proof fn lemma_entry_below_pop(
    lines: Seq<LineSpec>,
    n: int,
    open: Seq<int>,
    stack: Seq<(usize, Node)>,
    stack2: Seq<(usize, Node)>,
    k: int,
)
    requires
        open.len() == stack.len(),
        0 <= k < open.len() - 2,
        entry(lines, n, open, stack, k),
        stack2.len() == stack.len() - 1,
        stack2[k] == stack[k],
    ensures
        entry(lines, n, open.drop_last(), stack2, k),
{
}

/// The entry below the top takes the finished tree of the top as its last
/// child when the top is popped.
proof fn lemma_entry_takes_top(
    lines: Seq<LineSpec>,
    n: int,
    open: Seq<int>,
    stack: Seq<(usize, Node)>,
    stack2: Seq<(usize, Node)>,
)
    requires
        n <= lines.len(),
        open.len() == stack.len(),
        open.len() >= 2,
        entry(lines, n, open, stack, open.len() - 1),
        entry(lines, n, open, stack, open.len() - 2),
        n < lines.len() ==> lines[n].indent <= lines[open.last()].indent,
        stack2.len() == stack.len() - 1,
        stack2.last().0 == stack[stack.len() - 2].0,
        stack2.last().1@ == (Tree {
            kind: stack[stack.len() - 2].1@.kind,
            rails: stack[stack.len() - 2].1@.rails.push(stack.last().1@),
        }),
    ensures
        entry(lines, n, open.drop_last(), stack2, open.len() - 2),
{
    let last = open.len() - 1;
    let c = open[last];
    let t = open[last - 1];
    lemma_closed_is_complete(lines, c, n);
    lemma_parent_encloses(lines, c);
    lemma_children_behind_open(lines, Some(t), t + 1, c, n);
}

/// The forest takes the finished tree of the last open line when it is popped.
proof fn lemma_forest_takes_top(
    lines: Seq<LineSpec>,
    n: int,
    open: Seq<int>,
    stack: Seq<(usize, Node)>,
    forest: Seq<Node>,
    forest2: Seq<Node>,
)
    requires
        n <= lines.len(),
        open.len() == stack.len(),
        open.len() == 1,
        entry(lines, n, open, stack, 0),
        n < lines.len() ==> lines[n].indent <= lines[open.last()].indent,
        trees(forest) == children(lines, None, 0, open[0]),
        forest2 == forest.push(stack[0].1),
    ensures
        trees(forest2) == children(lines, None, 0, n),
{
    let c = open[0];
    lemma_closed_is_complete(lines, c, n);
    lemma_children_behind_open(lines, None, 0, c, n);
}

/// Once the top of the stack is popped because it is indented at `limit` or
/// deeper, still nothing above the new top can be the parent of a line with
/// indent `limit`.
proof fn lemma_none_above_pop(
    lines: Seq<LineSpec>,
    n: int,
    open: Seq<int>,
    stack: Seq<(usize, Node)>,
    limit: int,
)
    requires
        n <= lines.len(),
        open.len() == stack.len(),
        open.len() > 0,
        entry(lines, n, open, stack, open.len() - 1),
        none_above(lines, n, open, limit),
        lines[open.last()].indent >= limit,
    ensures
        none_above(lines, n, open.drop_last(), limit),
{
    let last = open.len() - 1;
    let c = open[last];
    let open2 = open.drop_last();
    lemma_nearest_enclosing(lines, c, c);
    assert forall|j: int| top_line(open2) < j < n implies !(owns_children(#[trigger] lines[j])
        && stays_open(lines, j, n) && lines[j].indent < limit) by {
        if j < c && owns_children(lines[j]) && stays_open(lines, j, n) && lines[j].indent < limit {
            assert(encloses(lines, j, c));
        }
    }
}

/// Popping the top of the stack and handing its node down keeps the state of
/// the builder, when the line that arrives is indented no deeper than the top.
proof fn lemma_step_pop(
    lines: Seq<LineSpec>,
    n: int,
    open: Seq<int>,
    stack: Seq<(usize, Node)>,
    forest: Seq<Node>,
    stack2: Seq<(usize, Node)>,
    forest2: Seq<Node>,
    limit: int,
)
    requires
        building(lines, n, open, stack, forest),
        none_above(lines, n, open, limit),
        open.len() > 0,
        lines[open.last()].indent >= limit,
        n < lines.len() ==> limit == lines[n].indent,
        attached(stack.drop_last(), forest, stack.last().1, stack2, forest2),
    ensures
        building(lines, n, open.drop_last(), stack2, forest2),
        none_above(lines, n, open.drop_last(), limit),
{
    let last = open.len() - 1;
    let open2 = open.drop_last();
    lemma_none_above_pop(lines, n, open, stack, limit);
    if last == 0 {
        lemma_forest_takes_top(lines, n, open, stack, forest, forest2);
    } else {
        lemma_entry_takes_top(lines, n, open, stack, stack2);
        assert forall|k: int| 0 <= k < open2.len() implies #[trigger] entry(
            lines,
            n,
            open2,
            stack2,
            k,
        ) by {
            if k < last - 1 {
                lemma_entry_below_pop(lines, n, open, stack, stack2, k);
            }
        }
    }
}

/// An entry of the stack stays what it is when line `n`, indented deeper,
/// goes on top of it.
proof fn lemma_entry_under_push(
    lines: Seq<LineSpec>,
    n: int,
    open: Seq<int>,
    stack: Seq<(usize, Node)>,
    pushed: (usize, Node),
    k: int,
)
    requires
        open.len() == stack.len(),
        0 <= k < open.len(),
        entry(lines, n, open, stack, k),
        lines[n].indent > lines[open[k]].indent,
    ensures
        entry(lines, n + 1, open.push(n), stack.push(pushed), k),
{
}

/// Pushing the node of line `n`, which owns children, moves the builder to
/// the state after `n + 1` lines.
pub(crate) proof fn lemma_step_push(
    lines: Seq<LineSpec>,
    n: int,
    open: Seq<int>,
    stack: Seq<(usize, Node)>,
    forest: Seq<Node>,
    node: Node,
)
    requires
        n < lines.len(),
        building(lines, n, open, stack, forest),
        none_above(lines, n, open, lines[n].indent as int),
        open.len() > 0 ==> lines[open.last()].indent < lines[n].indent,
        owns_children(lines[n]),
        lines[n].indent <= usize::MAX,
        node@ == (Tree { kind: node_kind(lines[n]), rails: Seq::empty() }),
    ensures
        building(lines, n + 1, open.push(n), stack.push((lines[n].indent as usize, node)), forest),
        closed_above(lines, n + 1, open.push(n)),
{
    lemma_top_is_parent(lines, n, open, stack, forest);
    let pushed = (lines[n].indent as usize, node);
    let open2 = open.push(n);
    let stack2 = stack.push(pushed);
    assert forall|k: int| 0 <= k < open2.len() implies #[trigger] entry(
        lines,
        n + 1,
        open2,
        stack2,
        k,
    ) by {
        if k < open.len() {
            lemma_entry_under_push(lines, n, open, stack, pushed, k);
        }
    }
    assert(ordered(lines, open2)) by {
        assert forall|k1: int, k2: int| 0 <= k1 < k2 < open2.len() implies #[trigger] open2[k1]
            < #[trigger] open2[k2] && lines[open2[k1]].indent < lines[open2[k2]].indent by {
            assert(entry(lines, n, open, stack, k1));
        }
    }
}

/// An entry below the top of the stack stays what it is when line `n`,
/// indented deeper, is handed to the top.
proof fn lemma_entry_under_leaf(
    lines: Seq<LineSpec>,
    n: int,
    open: Seq<int>,
    stack: Seq<(usize, Node)>,
    stack2: Seq<(usize, Node)>,
    k: int,
)
    requires
        open.len() == stack.len(),
        0 <= k < open.len() - 1,
        entry(lines, n, open, stack, k),
        lines[n].indent > lines[open[k]].indent,
        stack2[k] == stack[k],
    ensures
        entry(lines, n + 1, open, stack2, k),
{
}

/// The top of the stack takes the node of line `n`, its child, as its last.
proof fn lemma_top_takes_leaf(
    lines: Seq<LineSpec>,
    n: int,
    open: Seq<int>,
    stack: Seq<(usize, Node)>,
    stack2: Seq<(usize, Node)>,
    node: Node,
)
    requires
        n < lines.len(),
        open.len() == stack.len(),
        open.len() > 0,
        entry(lines, n, open, stack, open.len() - 1),
        lines[n].indent > lines[open.last()].indent,
        parent_of(lines, n) == Some(open.last()),
        node@ == subtree(lines, n),
        stack2.len() == stack.len(),
        stack2.last().0 == stack.last().0,
        stack2.last().1@ == (Tree {
            kind: stack.last().1@.kind,
            rails: stack.last().1@.rails.push(node@),
        }),
    ensures
        entry(lines, n + 1, open, stack2, open.len() - 1),
{
}

/// Handing the node of line `n`, which owns no children, to the top of the
/// stack or to the forest moves the builder to the state after `n + 1` lines.
pub(crate) proof fn lemma_step_leaf(
    lines: Seq<LineSpec>,
    n: int,
    open: Seq<int>,
    stack: Seq<(usize, Node)>,
    forest: Seq<Node>,
    node: Node,
    stack2: Seq<(usize, Node)>,
    forest2: Seq<Node>,
)
    requires
        n < lines.len(),
        building(lines, n, open, stack, forest),
        none_above(lines, n, open, lines[n].indent as int),
        open.len() > 0 ==> lines[open.last()].indent < lines[n].indent,
        !owns_children(lines[n]),
        node@ == (Tree { kind: node_kind(lines[n]), rails: Seq::empty() }),
        attached(stack, forest, node, stack2, forest2),
    ensures
        building(lines, n + 1, open, stack2, forest2),
        closed_above(lines, n + 1, open),
{
    lemma_top_is_parent(lines, n, open, stack, forest);
    lemma_leaf_has_no_children(lines, n);
    if open.len() == 0 {
        lemma_trees_push(forest, node);
    } else {
        let last = open.len() - 1;
        lemma_top_takes_leaf(lines, n, open, stack, stack2, node);
        assert forall|k: int| 0 <= k < open.len() implies #[trigger] entry(
            lines,
            n + 1,
            open,
            stack2,
            k,
        ) by {
            if k < last {
                lemma_entry_under_leaf(lines, n, open, stack, stack2, k);
            }
        }
    }
}

/// Closes the open nodes that a line with indent `limit` ends: pops each entry
/// indented at `limit` or deeper, and hands its node to the entry below it, or
/// to the forest.
pub(crate) fn close_open(
    stack: &mut Vec<(usize, Node)>,
    forest: &mut Vec<Node>,
    limit: usize,
    Ghost(lines): Ghost<Seq<LineSpec>>,
    Ghost(n): Ghost<int>,
    Ghost(open): Ghost<Seq<int>>,
) -> (left: Ghost<Seq<int>>)
    requires
        building(lines, n, open, old(stack)@, old(forest)@),
        closed_above(lines, n, open),
        n < lines.len() ==> limit == lines[n].indent,
    ensures
        building(lines, n, left@, final(stack)@, final(forest)@),
        none_above(lines, n, left@, limit as int),
        left@.len() > 0 ==> lines[left@.last()].indent < limit,
{
    let ghost mut open = open;
    while stack.len() > 0 && stack[stack.len() - 1].0 >= limit
        invariant
            building(lines, n, open, stack@, forest@),
            none_above(lines, n, open, limit as int),
            n < lines.len() ==> limit == lines[n].indent,
        decreases stack.len(),
    {
        let ghost stack0 = stack@;
        let ghost forest0 = forest@;
        assert(entry(lines, n, open, stack@, open.len() - 1));
        let top = stack.pop();
        match top {
            Some((_, node)) => {
                attach(stack, forest, node);
                proof {
                    lemma_step_pop(lines, n, open, stack0, forest0, stack@, forest@, limit as int);
                    open = open.drop_last();
                }
            },
            None => {},
        }
    }
    proof {
        if open.len() > 0 {
            assert(entry(lines, n, open, stack@, open.len() - 1));
        }
    }
    Ghost(open)
}

} // verus!
