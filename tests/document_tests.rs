use lekh::document::Document;
use lekh::position::{Position, SearchDirection};

fn doc_of(text: &str) -> Document {
    Document::from_contents("notes.txt", text)
}

fn lines(doc: &Document) -> Vec<String> {
    (0..doc.len()).map(|i| doc.row(i).unwrap().get_string().to_string()).collect()
}

#[test]
fn search_symmetry() {
    let doc = doc_of("hello world\nfoo hello\n");
    assert_eq!(
        doc.find("hello", &Position { x: 0, y: 0 }, SearchDirection::Forward),
        Some(Position { x: 0, y: 0 })
    );
    assert_eq!(
        doc.find("hello", &Position { x: 9, y: 1 }, SearchDirection::Backward),
        Some(Position { x: 4, y: 1 })
    );
    assert_eq!(doc.find("xyz", &Position { x: 0, y: 0 }, SearchDirection::Forward), None);
}

#[test]
fn search_moves_across_lines() {
    let doc = doc_of("hello world\nfoo hello\n");
    assert_eq!(
        doc.find("hello", &Position { x: 1, y: 0 }, SearchDirection::Forward),
        Some(Position { x: 4, y: 1 })
    );
    assert_eq!(
        doc.find("hello", &Position { x: 3, y: 1 }, SearchDirection::Backward),
        Some(Position { x: 0, y: 0 })
    );
    assert_eq!(doc.find("hello", &Position { x: 0, y: 2 }, SearchDirection::Forward), None);
    assert_eq!(doc.find("hello", &Position { x: 0, y: 0 }, SearchDirection::Backward), None);
}

#[test]
fn delete_at_boundary_joins() {
    let mut doc = doc_of("ab\ncd\n");
    assert_eq!(doc.len(), 2);
    doc.delete(&Position { x: 2, y: 0 });
    assert_eq!(doc.len(), 1);
    assert_eq!(lines(&doc), vec!["abcd".to_string()]);
    assert!(doc.is_dirty());
}

#[test]
fn delete_on_last_line_end_does_nothing_to_text() {
    let mut doc = doc_of("ab\ncd\n");
    doc.delete(&Position { x: 2, y: 1 });
    assert_eq!(lines(&doc), vec!["ab".to_string(), "cd".to_string()]);
    doc.delete(&Position { x: 0, y: 1 });
    assert_eq!(lines(&doc), vec!["ab".to_string(), "d".to_string()]);
}

#[test]
fn insert_newline_past_end_appends() {
    let mut doc = doc_of("only\n");
    assert_eq!(doc.len(), 1);
    doc.insert_newline(&Position { x: 0, y: 1 });
    assert_eq!(doc.len(), 2);
    assert_eq!(lines(&doc), vec!["only".to_string(), String::new()]);
}

#[test]
fn insert_newline_splits_line() {
    let mut doc = doc_of("hello\nx\n");
    doc.insert_newline(&Position { x: 2, y: 0 });
    assert_eq!(lines(&doc), vec!["he".to_string(), "llo".to_string(), "x".to_string()]);
}

#[test]
fn insert_char_and_past_end() {
    let mut doc = Document::default();
    assert!(doc.is_empty());
    doc.insert(&Position { x: 0, y: 0 }, 'a');
    doc.insert(&Position { x: 1, y: 0 }, 'b');
    doc.insert(&Position { x: 0, y: 1 }, 'c');
    assert_eq!(lines(&doc), vec!["ab".to_string(), "c".to_string()]);
}

#[test]
fn edits_beyond_the_end_are_ignored() {
    let mut doc = doc_of("ab\n");
    doc.insert(&Position { x: 0, y: 5 }, 'z');
    doc.insert_newline(&Position { x: 0, y: 5 });
    doc.delete(&Position { x: 0, y: 1 });
    assert_eq!(lines(&doc), vec!["ab".to_string()]);
    assert!(!doc.is_dirty());
}

#[test]
fn dirty_flag() {
    let fresh = Document::default();
    assert!(!fresh.is_dirty());
    let mut doc = doc_of("ab\n");
    assert!(!doc.is_dirty());
    doc.insert(&Position { x: 0, y: 0 }, 'x');
    assert!(doc.is_dirty());
    doc.saved();
    assert!(!doc.is_dirty());
    doc.delete(&Position { x: 0, y: 0 });
    assert!(doc.is_dirty());
    doc.saved();
    doc.insert_newline(&Position { x: 0, y: 0 });
    assert!(doc.is_dirty());
}

#[test]
fn round_trip_keeps_text() {
    let text = "fn main() {\n\tprintln!(\"h\u{00e9}\");\n}\n\n";
    let doc = doc_of(text);
    assert_eq!(doc.len(), 4);
    assert_eq!(doc.contents(), text);
    assert_eq!(doc.contents().as_bytes(), text.as_bytes());
}

#[test]
fn missing_final_newline_is_added() {
    let doc = doc_of("a\nb");
    assert_eq!(lines(&doc), vec!["a".to_string(), "b".to_string()]);
    assert_eq!(doc.contents(), "a\nb\n");
}

#[test]
fn empty_text_has_no_lines() {
    let doc = doc_of("");
    assert_eq!(doc.len(), 0);
    assert_eq!(doc.contents(), "");
    assert_eq!(doc.get_file_name(), Some("notes.txt".to_string()));
}

#[test]
fn file_name_is_kept() {
    let mut doc = Document::default();
    assert_eq!(doc.get_file_name(), None);
    doc.set_file_name("out.rs".to_string());
    assert_eq!(doc.get_file_name(), Some("out.rs".to_string()));
}

#[test]
fn highlight_takes_one_rendering_per_line() {
    let mut doc = doc_of("ab\ncd\n");
    assert!(doc.highlight(vec!["<ab>".to_string(), "<cd>".to_string()]).is_ok());
    assert_eq!(doc.row(0).unwrap().get_highlighted(), "<ab>");
    assert_eq!(doc.row(1).unwrap().get_highlighted(), "<cd>");
    assert_eq!(doc.row(1).unwrap().get_string(), "cd");
}

#[test]
fn highlight_refuses_mismatched_count() {
    let mut doc = doc_of("ab\ncd\n");
    let err = doc.highlight(vec!["<ab>".to_string()]).unwrap_err();
    assert_eq!(err.lines, 2);
    assert_eq!(err.styled, 1);
    assert_eq!(doc.row(0).unwrap().get_highlighted(), "");
}

#[test]
fn row_out_of_range_is_none() {
    let doc = doc_of("ab\n");
    assert!(doc.row(1).is_none());
}
