use lore::node::{DomainType, Node, NodeType};
use lore::output_html::generate_html;
use lore::parse::{into_nodes, parse_lines};

fn forest(input: &str) -> Vec<Node> {
    into_nodes(&parse_lines(input))
}

#[test]
fn domain_with_an_atom_and_a_link() {
    let nodes = forest("+ A\n  x\n  y = http://e.com");
    assert_eq!(nodes.len(), 1);
    match &nodes[0].node_type {
        NodeType::Domain(DomainType::Category1(name)) => assert_eq!(name, "A"),
        other => panic!("Expected Category1, got {:?}", other),
    }
    assert_eq!(nodes[0].rails.len(), 2);
    match &nodes[0].rails[0].node_type {
        NodeType::Element(text) => assert_eq!(text, "x"),
        other => panic!("Expected Element, got {:?}", other),
    }
    match &nodes[0].rails[1].node_type {
        NodeType::Rail(name, value) => {
            assert_eq!(name, "y");
            assert_eq!(value, "http://e.com");
        }
        other => panic!("Expected Rail, got {:?}", other),
    }
}

#[test]
fn atom_then_domain_with_a_child() {
    let nodes = forest("A\n+ B\n  C");
    assert_eq!(nodes.len(), 2);
    match &nodes[0].node_type {
        NodeType::Element(text) => assert_eq!(text, "A"),
        other => panic!("Expected Element, got {:?}", other),
    }
    assert_eq!(nodes[0].rails.len(), 0);
    match &nodes[1].node_type {
        NodeType::Domain(DomainType::Category1(name)) => assert_eq!(name, "B"),
        other => panic!("Expected Category1, got {:?}", other),
    }
    assert_eq!(nodes[1].rails.len(), 1);
    match &nodes[1].rails[0].node_type {
        NodeType::Element(text) => assert_eq!(text, "C"),
        other => panic!("Expected Element, got {:?}", other),
    }
}

#[test]
fn reference_with_a_link_below_it() {
    let nodes = forest("+ P > Q\n  r = s");
    assert_eq!(nodes.len(), 1);
    match &nodes[0].node_type {
        NodeType::Domain(DomainType::Category2(name, value)) => {
            assert_eq!(name, "P");
            assert_eq!(value, "Q");
        }
        other => panic!("Expected Category2, got {:?}", other),
    }
    assert_eq!(nodes[0].rails.len(), 1);
    match &nodes[0].rails[0].node_type {
        NodeType::Rail(name, value) => {
            assert_eq!(name, "r");
            assert_eq!(value, "s");
        }
        other => panic!("Expected Rail, got {:?}", other),
    }
}

#[test]
fn angle_without_plus_is_an_atom_and_owns_nothing() {
    let nodes = forest("P > Q\n  r = s");
    assert_eq!(nodes.len(), 2);
    match &nodes[0].node_type {
        NodeType::Element(text) => assert_eq!(text, "P > Q"),
        other => panic!("Expected Element, got {:?}", other),
    }
    match &nodes[1].node_type {
        NodeType::Rail(name, value) => {
            assert_eq!(name, "r");
            assert_eq!(value, "s");
        }
        other => panic!("Expected Rail, got {:?}", other),
    }
}

#[test]
fn placeholder_comment_and_domain_are_three_roots() {
    let nodes = forest("#\n#note\n+ D");
    assert_eq!(nodes.len(), 3);
    assert!(matches!(nodes[0].node_type, NodeType::PlaceHolder));
    match &nodes[1].node_type {
        NodeType::Comment(text) => assert_eq!(text, "note"),
        other => panic!("Expected Comment, got {:?}", other),
    }
    match &nodes[2].node_type {
        NodeType::Domain(DomainType::Category1(name)) => assert_eq!(name, "D"),
        other => panic!("Expected Category1, got {:?}", other),
    }
    let html = generate_html(nodes, "t".to_string());
    assert!(!html.contains("note"));
    assert!(!html.contains("#"));
    assert_eq!(html.matches("<details").count(), 2);
    assert!(html.contains("    <details open>\n      <summary>D</summary>\n    </details>\n"));
}

#[test]
fn hash_and_space_line_is_an_element() {
    let nodes = forest("#\n# note\n+ D");
    assert_eq!(nodes.len(), 3);
    assert!(matches!(nodes[0].node_type, NodeType::PlaceHolder));
    match &nodes[1].node_type {
        NodeType::Element(text) => assert_eq!(text, "# note"),
        other => panic!("Expected Element, got {:?}", other),
    }
    assert!(matches!(nodes[2].node_type, NodeType::Domain(_)));
}

#[test]
fn blank_input_gives_an_empty_forest_in_a_whole_shell() {
    let nodes = forest("\n   \n\t\n");
    assert!(nodes.is_empty());
    let html = generate_html(nodes, "empty".to_string());
    assert_eq!(
        html,
        "<!DOCTYPE html>\n<html>\n<head>\n  <meta charset=\"UTF-8\">\n  <meta name=\"viewport\" content=\"width=device-width, initial-scale=1.0\">\n  <title>empty</title>\n  <link rel=\"stylesheet\" href=\"https://fleetinglore.github.io/collection/collection.css\">\n</head>\n<body>\n  <details open>\n      <summary>empty</summary>\n      <div style=\"margin-left:17px\">\n    </div>\n  </details>\n</body>\n</html>"
    );
}
