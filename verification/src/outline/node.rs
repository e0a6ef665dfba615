//! The tree of an outline.

use vstd::pervasive::unreached;
use vstd::prelude::*;
use crate::forest::{forest_of, kind_of, lemma_children_are_subtrees, subtree};
use crate::node::{trees, DomainType, KindSpec, Node, NodeType, Tree};
use crate::outline::line::{in_outline, line_views, Content, Line};
use crate::parse::{into_nodes, LineContent, LineSpec};

verus! {

/// A node of an outline. It owns its children, in source order.
#[derive(Debug)]
pub struct LoreNode {
    pub content: Content,
    pub children: Vec<LoreNode>,
}

/// A named outline: its roots, in source order.
#[derive(Debug)]
pub struct Root {
    pub name: String,
    pub nodes: Vec<LoreNode>,
}

impl View for LoreNode {
    type V = Tree;

    open spec fn view(&self) -> Tree
        decreases self,
    {
        Tree {
            kind: kind_of(self.content@),
            rails: Seq::new(
                self.children.len() as nat,
                |i: int|
                    if 0 <= i < self.children.len() {
                        self.children[i]@
                    } else {
                        Tree { kind: KindSpec::PlaceHolder, rails: Seq::empty() }
                    },
            ),
        }
    }
}

/// The trees of a sequence of outline nodes, in order.
pub open spec fn lore_trees(nodes: Seq<LoreNode>) -> Seq<Tree> {
    Seq::new(nodes.len(), |i: int| nodes[i]@)
}

/// Whether a tree holds only what an outline has: elements, rails and plain
/// domains.
pub open spec fn is_outline(t: Tree) -> bool
    decreases t,
{
    &&& t.kind is Element || t.kind is Rail || (t.kind matches KindSpec::Domain(d) && d
        is Category1)
    &&& forall|i: int| 0 <= i < t.rails.len() ==> is_outline(#[trigger] t.rails[i])
}

/// How many levels of children a tree has below its root.
pub open spec fn height(t: Tree) -> nat
    decreases t,
{
    if t.rails.len() == 0 {
        0
    } else {
        1 + tallest(t.rails)
    }
}

/// The greatest height among a sequence of trees, 0 for none.
pub open spec fn tallest(ts: Seq<Tree>) -> nat
    decreases ts,
{
    if ts.len() == 0 {
        0
    } else {
        let before = tallest(ts.drop_last());
        let last = height(ts.last());
        if before >= last {
            before
        } else {
            last
        }
    }
}

/// The tree of an outline node is its kind over the trees of its children.
pub proof fn lemma_lore_node_view(node: LoreNode)
    ensures
        node@ == (Tree { kind: kind_of(node.content@), rails: lore_trees(node.children@) }),
{
    assert(node@.rails =~= lore_trees(node.children@));
}

/// No tree of a sequence is taller than the tallest.
pub proof fn lemma_tallest_bounds(ts: Seq<Tree>, k: int)
    requires
        0 <= k < ts.len(),
    ensures
        height(ts[k]) <= tallest(ts),
    decreases ts.len(),
{
    if k < ts.len() - 1 {
        lemma_tallest_bounds(ts.drop_last(), k);
    }
}

/// The tree of a line of an outline holds only what an outline has.
proof fn lemma_subtree_is_outline(lines: Seq<LineSpec>, i: int)
    requires
        0 <= i < lines.len(),
        forall|k: int| 0 <= k < lines.len() ==> in_outline(#[trigger] lines[k].token),
    ensures
        is_outline(subtree(lines, i)),
    decreases lines.len() - i,
{
    let t = subtree(lines, i);
    assert forall|k: int| 0 <= k < t.rails.len() implies is_outline(#[trigger] t.rails[k]) by {
        let d = lemma_children_are_subtrees(lines, Some(i), i + 1, lines.len() as int, k);
        lemma_subtree_is_outline(lines, d);
    }
}

/// The forest of an outline holds only what an outline has.
pub proof fn lemma_forest_is_outline(lines: Seq<LineSpec>)
    requires
        forall|k: int| 0 <= k < lines.len() ==> in_outline(#[trigger] lines[k].token),
    ensures
        forall|k: int|
            0 <= k < forest_of(lines).len() ==> is_outline(#[trigger] forest_of(lines)[k]),
{
    assert forall|k: int| 0 <= k < forest_of(lines).len() implies is_outline(
        #[trigger] forest_of(lines)[k],
    ) by {
        let d = lemma_children_are_subtrees(lines, None, 0, lines.len() as int, k);
        lemma_subtree_is_outline(lines, d);
    }
}

/// The outline node that stands for a node of the full tree.
fn outline_node(node: &Node) -> (r: LoreNode)
    requires
        is_outline(node@),
    ensures
        r@ == node@,
    decreases node,
{
    let content = match &node.node_type {
        NodeType::Element(text) => Content::Atom(text.clone()),
        NodeType::Rail(name, value) => Content::Link(name.clone(), value.clone()),
        NodeType::Domain(DomainType::Category1(name)) => Content::Domain(name.clone()),
        _ => unreached(),
    };
    let mut children: Vec<LoreNode> = Vec::new();
    let mut i: usize = 0;
    while i < node.rails.len()
        invariant
            i <= node.rails.len(),
            children.len() == i,
            is_outline(node@),
            node@.rails == trees(node.rails@),
            forall|k: int| 0 <= k < i ==> children@[k]@ == node.rails@[k]@,
        decreases node.rails.len() - i,
    {
        assert(node@.rails[i as int] == node.rails@[i as int]@);
        children.push(outline_node(&node.rails[i]));
        i += 1;
    }
    let r = LoreNode { content, children };
    proof {
        lemma_lore_node_view(r);
        assert(lore_trees(r.children@) =~= trees(node.rails@));
    }
    r
}

/// Builds the tree of an outline under the given name. Each line makes one
/// node; a node hangs under the nearest line before it that is a domain, is
/// indented less and is still open, or stands as a root when there is none.
pub fn into_root(name: String, lines: &[Line]) -> (root: Root)
    ensures
        root.name@ == name@,
        lore_trees(root.nodes@) == forest_of(line_views(lines@)),
{
    let mut full: Vec<LineContent> = Vec::new();
    let mut i: usize = 0;
    while i < lines.len()
        invariant
            i <= lines.len(),
            full.len() == i,
            forall|k: int| 0 <= k < i ==> full@[k]@ == lines@[k]@,
        decreases lines.len() - i,
    {
        full.push(lines[i].to_line_content());
        i += 1;
    }
    let ghost all = line_views(lines@);
    assert(crate::parse::line_views(full@) =~= all);
    let forest = into_nodes(&full);
    proof {
        lemma_forest_is_outline(all);
    }
    let mut nodes: Vec<LoreNode> = Vec::new();
    let mut k: usize = 0;
    while k < forest.len()
        invariant
            k <= forest.len(),
            nodes.len() == k,
            trees(forest@) == forest_of(all),
            forall|j: int|
                0 <= j < forest_of(all).len() ==> is_outline(#[trigger] forest_of(all)[j]),
            forall|j: int| 0 <= j < k ==> nodes@[j]@ == forest@[j]@,
        decreases forest.len() - k,
    {
        assert(is_outline(forest_of(all)[k as int]));
        nodes.push(outline_node(&forest[k]));
        k += 1;
    }
    Root { name, nodes }
}

/// The depth of the deepest node below `node`, counted from `current_depth`
/// at `node` itself.
pub fn calculate_depth(node: &LoreNode, current_depth: usize) -> (depth: usize)
    requires
        current_depth + height(node@) <= usize::MAX,
    ensures
        depth == current_depth + height(node@),
    decreases node,
{
    proof {
        lemma_lore_node_view(*node);
    }
    if node.children.len() == 0 {
        return current_depth;
    }
    let ghost rails = lore_trees(node.children@);
    let mut best: usize = current_depth + 1;
    let mut i: usize = 0;
    while i < node.children.len()
        invariant
            i <= node.children.len(),
            rails == lore_trees(node.children@),
            current_depth + 1 + tallest(rails) <= usize::MAX,
            best == current_depth + 1 + tallest(rails.take(i as int)),
        decreases node.children.len() - i,
    {
        proof {
            lemma_tallest_bounds(rails, i as int);
            assert(rails.take(i + 1).drop_last() =~= rails.take(i as int));
        }
        let below = calculate_depth(&node.children[i], current_depth + 1);
        if below > best {
            best = below;
        }
        i += 1;
    }
    assert(rails.take(node.children.len() as int) =~= rails);
    best
}

} // verus!
