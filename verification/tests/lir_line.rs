use lore::lir::content::{parse_content, Content};
use lore::lir::line::{parse_line, Line};

#[test]
fn test_parse_line_no_indent_element() {
    let line = parse_line("simple element");
    assert!(matches!(line.content, Content::Element("simple element")));
    assert_eq!(line.indent, 0);
}

#[test]
fn test_parse_content_domain() {
    let content = parse_content("+ domain text");
    assert!(matches!(content, Content::Domain("domain text")));
}

#[test]
fn test_parse_content_element_with_plus_no_space() {
    let content = parse_content("+no space");
    assert!(matches!(content, Content::Element("+no space")));
}

#[test]
fn test_parse_content_empty() {
    let content = parse_content("");
    assert!(matches!(content, Content::Element("")));
}

#[test]
fn test_parse_line_no_indent_domain() {
    let line = parse_line("+ domain lir");
    assert!(matches!(line.content, Content::Domain("domain lir")));
    assert_eq!(line.indent, 0);
}

#[test]
fn test_parse_line_with_indent_element() {
    let line = parse_line("  indented element");
    assert!(matches!(line.content, Content::Element("indented element")));
    assert_eq!(line.indent, 1);
}

#[test]
fn test_parse_line_with_indent_domain() {
    let line = parse_line("    + indented domain");
    assert!(matches!(line.content, Content::Domain("indented domain")));
    assert_eq!(line.indent, 2);
}

#[test]
fn test_parse_line_only_spaces() {
    let line = parse_line("    ");
    assert!(matches!(line.content, Content::Element("")));
    assert_eq!(line.indent, 2);
}

#[test]
fn test_display_line_element_no_indent() {
    let line = Line {
        content: Content::Element("element"),
        indent: 0,
    };
    assert_eq!(line.to_string(), "element");
}

#[test]
fn test_display_line_element_with_indent() {
    let line = Line {
        content: Content::Element("element"),
        indent: 2,
    };
    assert_eq!(line.to_string(), "    element");
}

#[test]
fn test_display_line_domain_no_indent() {
    let line = Line {
        content: Content::Domain("domain"),
        indent: 0,
    };
    assert_eq!(line.to_string(), "+ domain");
}

#[test]
fn test_display_line_domain_with_indent() {
    let line = Line {
        content: Content::Domain("domain"),
        indent: 1,
    };
    assert_eq!(line.to_string(), "  + domain");
}

#[test]
fn test_integration_parse_and_display() {
    let test_cases = vec![
        ("no indent", "no indent"),
        ("  two space indent", "  two space indent"),
        ("+ domain", "+ domain"),
        ("  + indented domain", "  + indented domain"),
        ("    four space element", "    four space element"),
    ];

    for (input, expected) in test_cases {
        let line = parse_line(input);
        assert_eq!(line.to_string(), expected);
    }
}

#[test]
fn test_odd_number_spaces_rounds_down() {
    let line = parse_line("     odd spaces");
    assert_eq!(line.indent, 2);
}

#[test]
fn tab_after_spaces_is_stripped_but_not_counted() {
    let line = parse_line("  \t+ d");
    assert_eq!(line.indent, 1);
    assert!(matches!(line.content, Content::Domain("d")));
}
