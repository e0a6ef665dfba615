use lore::outline::input_lore::parse;
use lore::outline::line::{Content, Line};
use lore::outline::node::{calculate_depth, into_root, LoreNode};
use lore::outline::output::{line_to_html, lines_to_html};
use lore::outline::parser::parse_line;
use lore::text::decimal_string;

fn atom(text: &str, indent: usize) -> Line {
    Line { indent, content: Content::Atom(text.to_string()) }
}

fn domain(name: &str, indent: usize) -> Line {
    Line { indent, content: Content::Domain(name.to_string()) }
}

fn link(name: &str, value: &str, indent: usize) -> Line {
    Line { indent, content: Content::Link(name.to_string(), value.to_string()) }
}

#[test]
fn outline_line_is_a_domain_a_link_or_an_atom() {
    let line = parse_line("  + name ");
    assert_eq!(line.indent, 1);
    assert!(matches!(&line.content, Content::Domain(name) if name == "name"));
    let line = parse_line("key = value = more");
    assert_eq!(line.indent, 0);
    assert!(matches!(&line.content, Content::Link(k, v) if k == "key" && v == "value = more"));
    let line = parse_line("     text ");
    assert_eq!(line.indent, 2);
    assert!(matches!(&line.content, Content::Atom(text) if text == "text "));
}

#[test]
fn outline_has_no_comments_and_no_references() {
    assert!(matches!(&parse_line("#note").content, Content::Atom(text) if text == "#note"));
    assert!(matches!(&parse_line("#").content, Content::Atom(text) if text == "#"));
    assert!(matches!(&parse_line("+ a > b").content, Content::Domain(name) if name == "a > b"));
    assert!(matches!(&parse_line("+").content, Content::Atom(text) if text == "+"));
    assert!(matches!(&parse_line("+ a = b").content, Content::Domain(name) if name == "a = b"));
}

#[test]
fn outline_text_is_read_line_by_line() {
    let lines = parse("+ d\n\n  a\n   \n  k = v\n".to_string().as_str());
    assert_eq!(lines.len(), 3);
    assert!(matches!(&lines[0].content, Content::Domain(name) if name == "d"));
    assert!(matches!(&lines[1].content, Content::Atom(text) if text == "a"));
    assert!(matches!(&lines[2].content, Content::Link(k, v) if k == "k" && v == "v"));
    assert_eq!(lines[2].indent, 1);
}

#[test]
fn outline_line_is_written_with_its_marker() {
    assert_eq!(atom("text", 0).to_string(), "text");
    assert_eq!(atom("text", 3).to_string(), "      text");
    assert_eq!(link("k", "v", 1).to_string(), "  k = v");
    assert_eq!(domain("d", 2).to_string(), "    + d");
}

#[test]
fn outline_line_reads_back_the_same() {
    for input in ["a", "   a b ", "+ d", "  +d > e", "k=v", " = v", "#x = y"] {
        let first = parse_line(input);
        let second = parse_line(&first.to_string());
        assert_eq!(first.indent, second.indent);
        assert_eq!(first.to_string(), second.to_string());
    }
}

#[test]
fn decimal_has_no_leading_zeros() {
    assert_eq!(decimal_string(0), "0");
    assert_eq!(decimal_string(7), "7");
    assert_eq!(decimal_string(10), "10");
    assert_eq!(decimal_string(1234567890), "1234567890");
    assert_eq!(decimal_string(u128::MAX), "340282366920938463463374607431768211455");
}

#[test]
fn paragraph_margin_is_twenty_pixels_a_level() {
    assert_eq!(line_to_html(&atom("a<b", 0)), "<p style=\"margin-left: 0px\">a<b</p>");
    assert_eq!(
        line_to_html(&link("k", "http://e.com", 3)),
        "<p style=\"margin-left: 60px\"><a href=\"http://e.com\" target=\"_blank\">k</a></p>"
    );
    assert_eq!(
        line_to_html(&domain("d", 12)),
        "<p style=\"margin-left: 240px\"><strong>+ d</strong></p>"
    );
    assert_eq!(
        line_to_html(&atom("", usize::MAX)),
        format!("<p style=\"margin-left: {}px\"></p>", (usize::MAX as u128) * 20)
    );
}

#[test]
fn page_holds_the_title_and_every_line() {
    let lines = vec![domain("d", 0), atom("a", 1)];
    assert_eq!(
        lines_to_html("Test", &lines),
        "<!DOCTYPE html>\n<html>\n<head>\n  <meta charset=\"UTF-8\">\n  <meta name=\"viewport\" content=\"width=device-width, initial-scale=1.0\">\n  <title>Test</title>\n  <link rel=\"stylesheet\" href=\"https://fleetinglore.github.io/collection/collection.css\">\n</head>\n<body>\n<p style=\"margin-left: 0px\"><strong>+ d</strong></p><p style=\"margin-left: 20px\">a</p>\n</body>\n</html>"
    );
}

fn name_of(node: &LoreNode) -> String {
    match &node.content {
        Content::Atom(text) => text.clone(),
        Content::Link(name, _) => name.clone(),
        Content::Domain(name) => name.clone(),
    }
}

#[test]
fn outline_tree_hangs_lines_under_open_domains() {
    let lines = vec![
        domain("a", 0),
        atom("x", 1),
        domain("b", 1),
        link("k", "v", 2),
        atom("y", 1),
        atom("z", 0),
        atom("under z", 1),
    ];
    let root = into_root("Root".to_string(), lines.as_slice());
    assert_eq!(root.name, "Root");
    assert_eq!(root.nodes.len(), 3);
    let a = &root.nodes[0];
    assert_eq!(name_of(a), "a");
    assert_eq!(a.children.len(), 3);
    assert_eq!(name_of(&a.children[0]), "x");
    assert_eq!(name_of(&a.children[1]), "b");
    assert_eq!(name_of(&a.children[2]), "y");
    assert_eq!(a.children[1].children.len(), 1);
    assert_eq!(name_of(&a.children[1].children[0]), "k");
    assert_eq!(name_of(&root.nodes[1]), "z");
    assert_eq!(root.nodes[1].children.len(), 0);
    assert_eq!(name_of(&root.nodes[2]), "under z");
}

#[test]
fn outline_tree_of_no_lines_is_empty() {
    let root = into_root("Root".to_string(), &[]);
    assert_eq!(root.name, "Root");
    assert!(root.nodes.is_empty());
}

#[test]
fn depth_counts_the_levels_below() {
    let lines = vec![
        domain("a", 0),
        domain("b", 1),
        domain("c", 2),
        atom("leaf", 3),
        atom("x", 1),
        atom("flat", 0),
    ];
    let root = into_root("Root".to_string(), lines.as_slice());
    assert_eq!(calculate_depth(&root.nodes[0], 0), 3);
    assert_eq!(calculate_depth(&root.nodes[0], 5), 8);
    assert_eq!(calculate_depth(&root.nodes[0].children[0], 1), 3);
    assert_eq!(calculate_depth(&root.nodes[1], 0), 0);
    assert_eq!(calculate_depth(&root.nodes[1], 9), 9);
}
