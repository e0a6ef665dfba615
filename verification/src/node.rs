//! The document tree: nodes that own their children, and the mathematical
//! trees that stand for them in contracts.

use vstd::prelude::*;

verus! {

/// The two kinds of domain: a plain name, or a name with a linked value.
#[derive(Debug)]
pub enum DomainType {
    Category1(String),
    Category2(String, String),
}

/// What a node is, with the text it carries.
#[derive(Debug)]
pub enum NodeType {
    PlaceHolder,
    Comment(String),
    Element(String),
    Rail(String, String),
    Domain(DomainType),
}

/// A node of the document tree. It owns its children, in source order.
#[derive(Debug)]
pub struct Node {
    pub node_type: NodeType,
    pub rails: Vec<Node>,
}

/// A domain kind over sequences of characters.
pub enum DomainSpec {
    Category1(Seq<char>),
    Category2(Seq<char>, Seq<char>),
}

/// A node kind over sequences of characters.
pub enum KindSpec {
    PlaceHolder,
    Comment(Seq<char>),
    Element(Seq<char>),
    Rail(Seq<char>, Seq<char>),
    Domain(DomainSpec),
}

/// A tree of node kinds: what a `Node` is to a contract.
pub struct Tree {
    pub kind: KindSpec,
    pub rails: Seq<Tree>,
}

impl View for DomainType {
    type V = DomainSpec;

    open spec fn view(&self) -> DomainSpec {
        match self {
            DomainType::Category1(name) => DomainSpec::Category1(name@),
            DomainType::Category2(name, value) => DomainSpec::Category2(name@, value@),
        }
    }
}

impl View for NodeType {
    type V = KindSpec;

    open spec fn view(&self) -> KindSpec {
        match self {
            NodeType::PlaceHolder => KindSpec::PlaceHolder,
            NodeType::Comment(text) => KindSpec::Comment(text@),
            NodeType::Element(text) => KindSpec::Element(text@),
            NodeType::Rail(name, value) => KindSpec::Rail(name@, value@),
            NodeType::Domain(domain) => KindSpec::Domain(domain@),
        }
    }
}

impl View for Node {
    type V = Tree;

    open spec fn view(&self) -> Tree
        decreases self,
    {
        Tree {
            kind: self.node_type@,
            rails: Seq::new(
                self.rails.len() as nat,
                |i: int|
                    if 0 <= i < self.rails.len() {
                        self.rails[i]@
                    } else {
                        Tree { kind: KindSpec::PlaceHolder, rails: Seq::empty() }
                    },
            ),
        }
    }
}

impl Clone for DomainType {
    fn clone(&self) -> (r: Self)
        ensures
            r@ == self@,
    {
        match self {
            DomainType::Category1(name) => DomainType::Category1(name.clone()),
            DomainType::Category2(name, value) => DomainType::Category2(
                name.clone(),
                value.clone(),
            ),
        }
    }
}

impl Clone for NodeType {
    fn clone(&self) -> (r: Self)
        ensures
            r@ == self@,
    {
        match self {
            NodeType::PlaceHolder => NodeType::PlaceHolder,
            NodeType::Comment(text) => NodeType::Comment(text.clone()),
            NodeType::Element(text) => NodeType::Element(text.clone()),
            NodeType::Rail(name, value) => NodeType::Rail(name.clone(), value.clone()),
            NodeType::Domain(domain) => NodeType::Domain(domain.clone()),
        }
    }
}

impl Clone for Node {
    fn clone(&self) -> (r: Self)
        ensures
            r@ == self@,
        decreases self,
    {
        let mut rails: Vec<Node> = Vec::new();
        let mut i: usize = 0;
        while i < self.rails.len()
            invariant
                i <= self.rails.len(),
                rails.len() == i,
                forall|k: int| 0 <= k < i ==> rails@[k]@ == self.rails@[k]@,
            decreases self.rails.len() - i,
        {
            rails.push(self.rails[i].clone());
            i += 1;
        }
        let r = Node { node_type: self.node_type.clone(), rails };
        proof {
            lemma_node_view(r);
            lemma_node_view(*self);
            assert(trees(r.rails@) =~= trees(self.rails@));
        }
        r
    }
}

/// The trees of a sequence of nodes, in order.
pub open spec fn trees(nodes: Seq<Node>) -> Seq<Tree> {
    Seq::new(nodes.len(), |i: int| nodes[i]@)
}

/// A tree is well formed when only domains have children, all the way down.
pub open spec fn well_formed(t: Tree) -> bool
    decreases t,
{
    &&& t.kind is Domain || t.rails.len() == 0
    &&& forall|i: int| 0 <= i < t.rails.len() ==> well_formed(#[trigger] t.rails[i])
}

/// The tree of a node is its kind over the trees of its children.
pub proof fn lemma_node_view(node: Node)
    ensures
        node@ == (Tree { kind: node.node_type@, rails: trees(node.rails@) }),
{
    assert(node@.rails =~= trees(node.rails@));
}

/// Appending a node appends its tree.
pub proof fn lemma_trees_push(nodes: Seq<Node>, node: Node)
    ensures
        trees(nodes.push(node)) == trees(nodes).push(node@),
{
}

} // verus!
