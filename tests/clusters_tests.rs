use lekh::position::SearchDirection;
use lekh::row::{find_in_clusters, insert_into_clusters, remove_from_clusters, render_clusters};

fn clusters(parts: &[&str]) -> Vec<String> {
    parts.iter().map(|p| p.to_string()).collect()
}

#[test]
fn find_in_given_clusters() {
    let gs = clusters(&["a", "b", "a"]);
    assert_eq!(find_in_clusters(&gs, "a", 1, SearchDirection::Forward), Some(2));
    assert_eq!(find_in_clusters(&gs, "a", 0, SearchDirection::Forward), Some(0));
    assert_eq!(find_in_clusters(&gs, "a", 2, SearchDirection::Backward), Some(0));
    assert_eq!(find_in_clusters(&gs, "ba", 3, SearchDirection::Backward), Some(1));
    assert_eq!(find_in_clusters(&gs, "ba", 2, SearchDirection::Backward), None);
    assert_eq!(find_in_clusters(&gs, "a", 4, SearchDirection::Forward), None);
}

#[test]
fn find_in_given_clusters_needs_cluster_start() {
    let gs = clusters(&["xy", "z"]);
    assert_eq!(find_in_clusters(&gs, "y", 0, SearchDirection::Forward), None);
    assert_eq!(find_in_clusters(&gs, "xyz", 0, SearchDirection::Forward), Some(0));
}

#[test]
fn insert_and_remove_in_given_clusters() {
    let gs = clusters(&["a\u{0301}", "b", "c"]);
    assert_eq!(insert_into_clusters(&gs, 1, 'x'), "a\u{0301}xbc");
    assert_eq!(insert_into_clusters(&gs, 9, 'x'), "a\u{0301}bcx");
    assert_eq!(remove_from_clusters(&gs, 0), "bc");
    assert_eq!(remove_from_clusters(&gs, 2), "a\u{0301}b");
}

#[test]
fn render_given_clusters() {
    let gs = clusters(&["\x1b", "[", "1", "m", "a", "\t", "b", "\x1b", "[", "0", "m"]);
    assert_eq!(render_clusters(&gs, 3, 0, 3), "\x1b[1ma b\x1b[0m");
    assert_eq!(render_clusters(&gs, 3, 1, 2), "\x1b[1m ");
    assert_eq!(render_clusters(&gs, 3, 2, 10), "\x1b[1mb\x1b[0m");
    assert_eq!(render_clusters(&gs, 2, 0, 10), "\x1b[1ma ");
}

#[test]
fn find_in_given_clusters_needs_cluster_end() {
    let gs = clusters(&["xy", "z"]);
    assert_eq!(find_in_clusters(&gs, "x", 0, SearchDirection::Forward), None);
    assert_eq!(find_in_clusters(&gs, "xy", 0, SearchDirection::Forward), Some(0));
    assert_eq!(find_in_clusters(&gs, "x", 2, SearchDirection::Backward), None);
    assert_eq!(find_in_clusters(&gs, "xyz", 1, SearchDirection::Backward), None);
}
