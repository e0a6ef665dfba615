use lore::node::{DomainType, NodeType};
use lore::parse::{into_nodes, LineContent};

#[test]
fn test_into_nodes_simple_structure() {
    let lines = vec![
        LineContent::Domain("主域名".to_string(), 0),
        LineContent::Atom("子元素".to_string(), 1),
        LineContent::Link("链接".to_string(), "http://example.com".to_string(), 1),
    ];

    let nodes = into_nodes(&lines);

    assert_eq!(nodes.len(), 1);

    let root = &nodes[0];
    match &root.node_type {
        NodeType::Domain(domain_type) => match domain_type {
            DomainType::Category1(name) => assert_eq!(name, "主域名"),
            _ => panic!("Expected Category1"),
        },
        _ => panic!("Root should be Domain"),
    }

    assert_eq!(root.rails.len(), 2);

    match &root.rails[0].node_type {
        NodeType::Element(content) => assert_eq!(content, "子元素"),
        _ => panic!("First child should be Element"),
    }

    match &root.rails[1].node_type {
        NodeType::Rail(name, value) => {
            assert_eq!(name, "链接");
            assert_eq!(value, "http://example.com");
        }
        _ => panic!("Second child should be Rail"),
    }
}

#[test]
fn test_into_nodes_nested_structure() {
    let lines = vec![
        LineContent::Domain("一级域名".to_string(), 0),
        LineContent::Domain("二级域名".to_string(), 1),
        LineContent::Atom("三级元素".to_string(), 2),
        LineContent::Reference("父级".to_string(), "引用".to_string(), 1),
        LineContent::Link("链接".to_string(), "http://test.com".to_string(), 2),
    ];

    let nodes = into_nodes(&lines);

    assert_eq!(nodes.len(), 1);

    let root = &nodes[0];
    assert_eq!(root.rails.len(), 2);

    let child1 = &root.rails[0];
    match &child1.node_type {
        NodeType::Domain(domain_type) => match domain_type {
            DomainType::Category1(name) => assert_eq!(name, "二级域名"),
            _ => panic!("Expected Category1"),
        },
        _ => panic!("Child1 should be Domain"),
    }

    assert_eq!(child1.rails.len(), 1);

    let grandchild = &child1.rails[0];
    match &grandchild.node_type {
        NodeType::Element(content) => assert_eq!(content, "三级元素"),
        _ => panic!("Grandchild should be Element"),
    }

    let child2 = &root.rails[1];
    match &child2.node_type {
        NodeType::Domain(domain_type) => match domain_type {
            DomainType::Category2(name, value) => {
                assert_eq!(name, "父级");
                assert_eq!(value, "引用");
            }
            _ => panic!("Expected Category2"),
        },
        _ => panic!("Child2 should be Domain with Category2"),
    }

    assert_eq!(child2.rails.len(), 1);

    let ref_child = &child2.rails[0];
    match &ref_child.node_type {
        NodeType::Rail(name, value) => {
            assert_eq!(name, "链接");
            assert_eq!(value, "http://test.com");
        }
        _ => panic!("Reference child should be Rail"),
    }
}

#[test]
fn test_into_nodes_multiple_roots() {
    let lines = vec![
        LineContent::Domain("域名1".to_string(), 0),
        LineContent::Atom("元素1".to_string(), 1),
        LineContent::Domain("域名2".to_string(), 0),
        LineContent::Atom("元素2".to_string(), 1),
    ];

    let nodes = into_nodes(&lines);

    assert_eq!(nodes.len(), 2);

    match &nodes[0].node_type {
        NodeType::Domain(domain_type) => match domain_type {
            DomainType::Category1(name) => assert_eq!(name, "域名1"),
            _ => panic!("Expected Category1"),
        },
        _ => panic!("First should be Domain"),
    }
    assert_eq!(nodes[0].rails.len(), 1);

    match &nodes[1].node_type {
        NodeType::Domain(domain_type) => match domain_type {
            DomainType::Category1(name) => assert_eq!(name, "域名2"),
            _ => panic!("Expected Category1"),
        },
        _ => panic!("Second should be Domain"),
    }
    assert_eq!(nodes[1].rails.len(), 1);
}

#[test]
fn test_into_nodes_empty_input() {
    let lines: Vec<LineContent> = vec![];
    let nodes = into_nodes(&lines);

    assert!(nodes.is_empty());
}

fn walk(node: &lore::node::Node, visit: &mut Vec<(bool, usize)>) {
    visit.push((matches!(node.node_type, NodeType::Domain(_)), node.rails.len()));
    for child in &node.rails {
        walk(child, visit);
    }
}

fn element(node: &lore::node::Node) -> String {
    match &node.node_type {
        NodeType::Element(text) => text.clone(),
        other => panic!("Expected Element, got {:?}", other),
    }
}

#[test]
fn comments_and_placeholders_are_nodes() {
    let lines = vec![
        LineContent::Comment("开始".to_string(), 0),
        LineContent::Domain("测试域".to_string(), 0),
        LineContent::PlaceHolder(1),
        LineContent::Comment("中间注释".to_string(), 1),
        LineContent::Atom("有效元素".to_string(), 1),
    ];

    let nodes = into_nodes(&lines);

    assert_eq!(nodes.len(), 2);
    match &nodes[0].node_type {
        NodeType::Comment(text) => assert_eq!(text, "开始"),
        _ => panic!("First root should be Comment"),
    }
    let root = &nodes[1];
    match &root.node_type {
        NodeType::Domain(DomainType::Category1(name)) => assert_eq!(name, "测试域"),
        _ => panic!("Second root should be Domain"),
    }
    assert_eq!(root.rails.len(), 3);
    assert!(matches!(root.rails[0].node_type, NodeType::PlaceHolder));
    match &root.rails[1].node_type {
        NodeType::Comment(text) => assert_eq!(text, "中间注释"),
        _ => panic!("Should be Comment"),
    }
    match &root.rails[2].node_type {
        NodeType::Element(content) => assert_eq!(content, "有效元素"),
        _ => panic!("Should be Element"),
    }
}

#[test]
fn indented_line_without_open_domain_is_a_root() {
    let lines = vec![
        LineContent::Atom("orphan".to_string(), 1),
        LineContent::Atom("top".to_string(), 0),
        LineContent::Atom("under an atom".to_string(), 1),
    ];
    let nodes = into_nodes(&lines);
    assert_eq!(nodes.len(), 3);
    assert_eq!(element(&nodes[0]), "orphan");
    assert_eq!(element(&nodes[1]), "top");
    assert_eq!(element(&nodes[2]), "under an atom");
    assert!(nodes.iter().all(|n| n.rails.is_empty()));
}

#[test]
fn indent_may_jump() {
    let lines = vec![
        LineContent::Domain("d".to_string(), 0),
        LineContent::Atom("far".to_string(), 3),
        LineContent::Atom("near".to_string(), 1),
    ];
    let nodes = into_nodes(&lines);
    assert_eq!(nodes.len(), 1);
    assert_eq!(nodes[0].rails.len(), 2);
    assert_eq!(element(&nodes[0].rails[0]), "far");
    assert_eq!(element(&nodes[0].rails[1]), "near");
}

#[test]
fn closed_domain_takes_no_more_children() {
    let lines = vec![
        LineContent::Domain("a".to_string(), 0),
        LineContent::Domain("b".to_string(), 2),
        LineContent::Atom("x".to_string(), 1),
        LineContent::Atom("y".to_string(), 3),
    ];
    let nodes = into_nodes(&lines);
    assert_eq!(nodes.len(), 1);
    let a = &nodes[0];
    assert_eq!(a.rails.len(), 3);
    assert!(matches!(a.rails[0].node_type, NodeType::Domain(_)));
    assert_eq!(a.rails[0].rails.len(), 0);
    assert_eq!(element(&a.rails[1]), "x");
    assert_eq!(element(&a.rails[2]), "y");
}

#[test]
fn domain_before_an_equal_indent_has_no_children() {
    let lines = vec![
        LineContent::Domain("first".to_string(), 1),
        LineContent::Domain("second".to_string(), 1),
        LineContent::Atom("child".to_string(), 2),
        LineContent::Reference("third".to_string(), "v".to_string(), 0),
    ];
    let nodes = into_nodes(&lines);
    assert_eq!(nodes.len(), 3);
    assert_eq!(nodes[0].rails.len(), 0);
    assert_eq!(nodes[1].rails.len(), 1);
    assert_eq!(nodes[2].rails.len(), 0);
    match &nodes[2].node_type {
        NodeType::Domain(DomainType::Category2(name, value)) => {
            assert_eq!(name, "third");
            assert_eq!(value, "v");
        }
        _ => panic!("Expected Category2"),
    }
}

#[test]
fn deep_chain_closes_at_the_end() {
    let mut lines = Vec::new();
    for depth in 0..50 {
        lines.push(LineContent::Domain(format!("d{}", depth), depth));
    }
    lines.push(LineContent::Atom("leaf".to_string(), 50));
    let nodes = into_nodes(&lines);
    assert_eq!(nodes.len(), 1);
    let mut node = &nodes[0];
    for _ in 0..49 {
        assert_eq!(node.rails.len(), 1);
        node = &node.rails[0];
    }
    assert_eq!(node.rails.len(), 1);
    assert_eq!(element(&node.rails[0]), "leaf");
}

#[test]
fn forest_has_one_root_for_each_unindented_line() {
    let lines = vec![
        LineContent::Atom("a".to_string(), 0),
        LineContent::Domain("b".to_string(), 0),
        LineContent::Link("k".to_string(), "v".to_string(), 1),
        LineContent::Domain("c".to_string(), 1),
        LineContent::Atom("d".to_string(), 2),
        LineContent::PlaceHolder(0),
    ];
    let unindented = lines.iter().filter(|l| l.indent() == 0).count();
    let nodes = into_nodes(&lines);
    assert_eq!(nodes.len(), unindented);
    assert_eq!(nodes.len(), 3);
}

#[test]
fn only_domains_have_children_and_every_line_makes_a_node() {
    let lines = vec![
        LineContent::Atom("a".to_string(), 2),
        LineContent::Domain("b".to_string(), 1),
        LineContent::Link("k".to_string(), "v".to_string(), 4),
        LineContent::Comment("c".to_string(), 5),
        LineContent::Reference("r".to_string(), "s".to_string(), 3),
        LineContent::Atom("d".to_string(), 4),
        LineContent::PlaceHolder(2),
        LineContent::Atom("e".to_string(), 0),
    ];
    let nodes = into_nodes(&lines);
    let mut visit = Vec::new();
    for node in &nodes {
        walk(node, &mut visit);
    }
    assert_eq!(visit.len(), lines.len());
    for (is_domain, children) in visit {
        assert!(is_domain || children == 0);
    }
}

fn kinds_in_preorder(node: &lore::node::Node, out: &mut Vec<String>) {
    out.push(format!("{:?}", node.node_type));
    for child in &node.rails {
        kinds_in_preorder(child, out);
    }
}

#[test]
fn walking_the_forest_gives_the_lines_in_source_order() {
    let lines = vec![
        LineContent::Atom("a".to_string(), 1),
        LineContent::Domain("b".to_string(), 0),
        LineContent::Domain("c".to_string(), 2),
        LineContent::Link("k".to_string(), "v".to_string(), 3),
        LineContent::Comment("n".to_string(), 1),
        LineContent::Atom("d".to_string(), 4),
        LineContent::Reference("r".to_string(), "s".to_string(), 0),
        LineContent::PlaceHolder(1),
        LineContent::Atom("e".to_string(), 0),
    ];
    let expected: Vec<String> =
        lines.iter().map(|line| format!("{:?}", line.to_node().node_type)).collect();
    let nodes = into_nodes(&lines);
    let mut walked = Vec::new();
    for node in &nodes {
        kinds_in_preorder(node, &mut walked);
    }
    assert_eq!(walked, expected);
}

#[test]
fn line_knows_its_indent_and_whether_it_opens_a_domain() {
    assert_eq!(LineContent::PlaceHolder(3).indent(), 3);
    assert_eq!(LineContent::Link("k".to_string(), "v".to_string(), 7).indent(), 7);
    assert!(LineContent::Domain("d".to_string(), 0).opens_domain());
    assert!(LineContent::Reference("d".to_string(), "v".to_string(), 0).opens_domain());
    assert!(!LineContent::Atom("+ d".to_string(), 0).opens_domain());
    assert!(!LineContent::Comment("d".to_string(), 0).opens_domain());
}
