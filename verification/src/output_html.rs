//! The HTML renderer: a forest becomes nested disclosure blocks inside a
//! fixed document shell.

use vstd::prelude::*;
use vstd::string::StringExecFns;
use crate::node::{lemma_node_view, trees, DomainSpec, DomainType, KindSpec, Node, NodeType, Tree};
use crate::text::{indentation, indentation_string};

verus! {

/// The document up to the title inside `<title>`.
pub const SHELL_HEAD: &'static str =
    "<!DOCTYPE html>\n<html>\n<head>\n  <meta charset=\"UTF-8\">\n  <meta name=\"viewport\" content=\"width=device-width, initial-scale=1.0\">\n  <title>";

/// From the end of the title up to the title as the header of the outermost
/// block, which is open.
pub const SHELL_OPEN: &'static str =
    "</title>\n  <link rel=\"stylesheet\" href=\"https://fleetinglore.github.io/collection/collection.css\">\n</head>\n<body>\n  <details open>\n      <summary>";

/// From the header of the outermost block up to its body.
pub const SHELL_BODY: &'static str = "</summary>\n      <div style=\"margin-left:17px\">\n";

/// What closes the outermost block and the document.
pub const SHELL_TAIL: &'static str = "    </div>\n  </details>\n</body>\n</html>";

/// The level at which the roots of a forest are rendered: the document's
/// title block wraps them.
pub const TOP_LEVEL: usize = 2;

/// The header text of a domain: its name, or `name = value`.
pub open spec fn domain_title(domain: DomainSpec) -> Seq<char> {
    match domain {
        DomainSpec::Category1(name) => name,
        DomainSpec::Category2(name, value) => name + " = "@ + value,
    }
}

/// The markup of one tree at nesting depth `level`. Comments and place
/// holders give nothing. A domain gives a disclosure block, open at the top
/// level and collapsed below it, with its children one level deeper inside an
/// indented body when it has any. A rail gives a link that opens in a new
/// browsing context; an element gives a paragraph of its text as it is.
pub open spec fn node_html(t: Tree, level: nat) -> Seq<char>
    decreases t,
{
    let pad = indentation(level);
    match t.kind {
        KindSpec::PlaceHolder => Seq::empty(),
        KindSpec::Comment(_) => Seq::empty(),
        KindSpec::Domain(domain) => pad + (if level == TOP_LEVEL {
            "<details open>\n"@
        } else {
            "<details>\n"@
        }) + pad + "  <summary>"@ + domain_title(domain) + "</summary>\n"@ + (if t.rails.len()
            > 0 {
            pad + "  <div style=\"margin-left:20px\">\n"@ + nodes_html(t.rails, level + 1) + pad
                + "  </div>\n"@
        } else {
            Seq::empty()
        }) + pad + "</details>\n"@,
        KindSpec::Rail(name, value) => pad + "<a href=\""@ + value + "\" target=\"_blank\">"@ + name
            + "</a>\n"@,
        KindSpec::Element(text) => pad + "<p>"@ + text + "</p>\n"@,
    }
}

/// The markup of a sequence of trees at nesting depth `level`: one after the
/// other, in order.
pub open spec fn nodes_html(ts: Seq<Tree>, level: nat) -> Seq<char>
    decreases ts,
{
    if ts.len() == 0 {
        Seq::empty()
    } else {
        nodes_html(ts.drop_last(), level) + node_html(ts.last(), level)
    }
}

/// The whole document: the shell with the title in its two places, and the
/// forest at the top level as the body of the outermost block.
pub open spec fn document_html(forest: Seq<Tree>, title: Seq<char>) -> Seq<char> {
    SHELL_HEAD@ + title + SHELL_OPEN@ + title + SHELL_BODY@ + nodes_html(forest, TOP_LEVEL as nat)
        + SHELL_TAIL@
}

/// The header text of a domain.
fn title_of(domain: &DomainType) -> (title: String)
    ensures
        title@ == domain_title(domain@),
{
    match domain {
        DomainType::Category1(name) => name.clone(),
        DomainType::Category2(name, value) => {
            let mut title = name.clone();
            title.append(" = ");
            title.append(value.as_str());
            title
        },
    }
}

/// The markup of the children of a node, one level below it, where `pad` is
/// the indentation at that level.
fn rails_to_html(rails: &Vec<Node>, pad: &str, Ghost(level): Ghost<nat>) -> (html: String)
    requires
        pad@ == indentation(level),
        level > TOP_LEVEL,
    ensures
        html@ == nodes_html(trees(rails@), level),
    decreases rails, 1int,
{
    let mut html = String::new();
    let mut i: usize = 0;
    while i < rails.len()
        invariant
            i <= rails.len(),
            pad@ == indentation(level),
            level > TOP_LEVEL,
            html@ == nodes_html(trees(rails@).take(i as int), level),
        decreases rails.len() - i,
    {
        let piece = node_to_html(&rails[i], pad, false, Ghost(level));
        html.append(piece.as_str());
        proof {
            let all = trees(rails@);
            assert(all.take(i + 1).drop_last() =~= all.take(i as int));
        }
        i += 1;
    }
    proof {
        assert(trees(rails@).take(rails.len() as int) =~= trees(rails@));
    }
    html
}

/// The markup of one node, where `pad` is the indentation at its level and
/// `top` says whether that is the top level.
fn node_to_html(node: &Node, pad: &str, top: bool, Ghost(level): Ghost<nat>) -> (html: String)
    requires
        pad@ == indentation(level),
        level >= TOP_LEVEL,
        top == (level == TOP_LEVEL),
    ensures
        html@ == node_html(node@, level),
    decreases node, 0int,
{
    proof {
        lemma_node_view(*node);
    }
    let mut html = String::new();
    match &node.node_type {
        NodeType::PlaceHolder => {},
        NodeType::Comment(_) => {},
        NodeType::Domain(domain) => {
            html.append(pad);
            if top {
                html.append("<details open>\n");
            } else {
                html.append("<details>\n");
            }
            html.append(pad);
            html.append("  <summary>");
            let title = title_of(domain);
            html.append(title.as_str());
            html.append("</summary>\n");
            if node.rails.len() > 0 {
                let mut deeper = String::new();
                deeper.append(pad);
                deeper.append("  ");
                let mut block = String::new();
                block.append(pad);
                block.append("  <div style=\"margin-left:20px\">\n");
                let inner = rails_to_html(&node.rails, deeper.as_str(), Ghost(level + 1));
                block.append(inner.as_str());
                block.append(pad);
                block.append("  </div>\n");
                html.append(block.as_str());
            }
            html.append(pad);
            html.append("</details>\n");
        },
        NodeType::Rail(name, value) => {
            html.append(pad);
            html.append("<a href=\"");
            html.append(value.as_str());
            html.append("\" target=\"_blank\">");
            html.append(name.as_str());
            html.append("</a>\n");
        },
        NodeType::Element(text) => {
            html.append(pad);
            html.append("<p>");
            html.append(text.as_str());
            html.append("</p>\n");
        },
    }
    html
}

/// Renders a forest as a complete HTML document with the given title.
pub fn generate_html(nodes: Vec<Node>, title: String) -> (html: String)
    ensures
        html@ == document_html(trees(nodes@), title@),
{
    let mut html = String::new();
    html.append(SHELL_HEAD);
    html.append(title.as_str());
    html.append(SHELL_OPEN);
    html.append(title.as_str());
    html.append(SHELL_BODY);
    let pad = indentation_string(TOP_LEVEL);
    let mut body = String::new();
    let mut i: usize = 0;
    while i < nodes.len()
        invariant
            i <= nodes.len(),
            pad@ == indentation(TOP_LEVEL as nat),
            body@ == nodes_html(trees(nodes@).take(i as int), TOP_LEVEL as nat),
        decreases nodes.len() - i,
    {
        let piece = node_to_html(&nodes[i], pad.as_str(), true, Ghost(TOP_LEVEL as nat));
        body.append(piece.as_str());
        proof {
            let all = trees(nodes@);
            assert(all.take(i + 1).drop_last() =~= all.take(i as int));
        }
        i += 1;
    }
    proof {
        assert(trees(nodes@).take(nodes.len() as int) =~= trees(nodes@));
    }
    html.append(body.as_str());
    html.append(SHELL_TAIL);
    html
}

} // verus!
