use lekh::position::SearchDirection;
use lekh::row::Row;
use unicode_segmentation::UnicodeSegmentation;

fn cluster_count(s: &str) -> usize {
    s.graphemes(true).count()
}

#[test]
fn from_counts_grapheme_clusters() {
    let row = Row::from("a\u{0301}bc", "");
    assert_eq!(row.len(), 3);
    assert!(!row.is_empty());
    assert_eq!(row.get_string(), "a\u{0301}bc");
    assert_eq!(row.as_bytes(), "a\u{0301}bc".as_bytes());
}

#[test]
fn default_row_is_empty() {
    let row = Row::default();
    assert_eq!(row.len(), 0);
    assert!(row.is_empty());
    assert_eq!(row.get_string(), "");
    assert_eq!(row.get_highlighted(), "");
}

#[test]
fn insert_before_cluster() {
    let mut row = Row::from("a\u{0301}c", "");
    row.insert(1, 'b');
    assert_eq!(row.get_string(), "a\u{0301}bc");
    assert_eq!(row.len(), 3);
}

#[test]
fn insert_past_end_appends() {
    let mut row = Row::from("ab", "");
    row.insert(10, 'z');
    assert_eq!(row.get_string(), "abz");
    assert_eq!(row.len(), 3);
}

#[test]
fn length_tracks_clusters_through_edits() {
    let mut row = Row::from("e", "");
    row.insert(1, '\u{0301}');
    assert_eq!(row.len(), cluster_count(row.get_string()));
    assert_eq!(row.len(), 1);
    row.insert(0, 'x');
    row.insert(5, 'y');
    assert_eq!(row.len(), cluster_count(row.get_string()));
    row.delete(1);
    assert_eq!(row.get_string(), "xy");
    assert_eq!(row.len(), cluster_count(row.get_string()));
    row.delete(7);
    assert_eq!(row.get_string(), "xy");
    assert_eq!(row.len(), 2);
}

#[test]
fn delete_removes_whole_cluster() {
    let mut row = Row::from("a\u{0301}b", "");
    row.delete(0);
    assert_eq!(row.get_string(), "b");
    assert_eq!(row.len(), 1);
}

#[test]
fn split_then_append_restores_line() {
    for at in 0..5 {
        let mut row = Row::from("h\u{0308}ell", "styled");
        let rest = row.split(at);
        let kept = if at < 4 { at } else { 4 };
        assert_eq!(row.len(), kept);
        assert_eq!(rest.len(), 4 - kept);
        assert_eq!(rest.get_highlighted(), "styled");
        row.append(&rest);
        assert_eq!(row.get_string(), "h\u{0308}ell");
        assert_eq!(row.len(), 4);
    }
}

#[test]
fn split_in_middle() {
    let mut row = Row::from("abcd", "");
    let rest = row.split(1);
    assert_eq!(row.get_string(), "a");
    assert_eq!(rest.get_string(), "bcd");
}

#[test]
fn append_joins_text() {
    let mut row = Row::from("ab", "");
    let other = Row::from("cd", "");
    row.append(&other);
    assert_eq!(row.get_string(), "abcd");
    assert_eq!(row.len(), 4);
}

#[test]
fn find_forward_and_backward() {
    let row = Row::from("foo hello hello", "");
    assert_eq!(row.find("hello", 0, SearchDirection::Forward), Some(4));
    assert_eq!(row.find("hello", 5, SearchDirection::Forward), Some(10));
    assert_eq!(row.find("hello", 15, SearchDirection::Backward), Some(10));
    assert_eq!(row.find("hello", 14, SearchDirection::Backward), Some(4));
    assert_eq!(row.find("hello", 8, SearchDirection::Backward), None);
    assert_eq!(row.find("xyz", 0, SearchDirection::Forward), None);
    assert_eq!(row.find("foo", 16, SearchDirection::Forward), None);
}

#[test]
fn find_counts_clusters_not_chars() {
    let row = Row::from("a\u{0301}a\u{0301}x", "");
    assert_eq!(row.find("x", 0, SearchDirection::Forward), Some(2));
    assert_eq!(row.find("a\u{0301}", 1, SearchDirection::Forward), Some(1));
}

#[test]
fn find_does_not_match_inside_cluster() {
    let row = Row::from("a\u{0301}", "");
    assert_eq!(row.find("\u{0301}", 0, SearchDirection::Forward), None);
}

#[test]
fn render_slices_visible_clusters() {
    let styled = "\x1b[31mab\tcd\x1b[0m";
    let row = Row::from("ab\tcd", styled);
    assert_eq!(row.render(0, 5), "\x1b[31mab cd\x1b[0m");
    assert_eq!(row.render(1, 3), "\x1b[31mb ");
    assert_eq!(row.render(3, 100), "\x1b[31mcd\x1b[0m");
    assert_eq!(row.render(9, 2), "\x1b[31m");
}

#[test]
fn find_never_ends_inside_cluster() {
    let row = Row::from("e\u{301}x", "");
    assert_eq!(row.len(), 2);
    assert_eq!(row.find("e", 0, SearchDirection::Forward), None);
    assert_eq!(row.find("e\u{301}", 0, SearchDirection::Forward), Some(0));
    assert_eq!(row.find("e", 2, SearchDirection::Backward), None);
    assert_eq!(row.find("e\u{301}x", 2, SearchDirection::Backward), Some(0));
}
