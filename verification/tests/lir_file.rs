use lore::lir::content::Content;
use lore::lir::file::File;

#[test]
fn file_lines_become_document_lines() {
    let file = File::from_lines(
        "notes.lore".to_string(),
        vec!["root".to_string(), "  + domain".to_string(), "    nested".to_string(), "".to_string()],
    );
    let root = file.parse();
    assert_eq!(root.data.len(), 4);
    assert!(matches!(root.data[0].content, Content::Element("root")));
    assert!(matches!(root.data[1].content, Content::Domain("domain")));
    assert_eq!(root.data[1].indent, 1);
    assert!(matches!(root.data[2].content, Content::Element("nested")));
    assert_eq!(root.data[2].indent, 2);
    assert!(matches!(root.data[3].content, Content::Element("")));
    assert_eq!(root.to_string(), "root\n  + domain\n    nested\n\n");
}

#[test]
fn file_without_lines_is_an_empty_document() {
    let file = File::from_lines(String::new(), Vec::new());
    assert_eq!(file.parse().data.len(), 0);
}

#[test]
fn file_names_its_path_and_counts_its_lines() {
    let lines: Vec<String> = (0..12).map(|i| format!("line {}", i)).collect();
    let file = File::from_lines("dir/notes.lore".to_string(), lines);
    assert_eq!(file.to_string(), "File: dir/notes.lore (12 lines)");
    assert_eq!(File::from_lines(String::new(), Vec::new()).to_string(), "File:  (0 lines)");
}
