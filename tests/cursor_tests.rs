use lekh::cursor::{move_cursor, scroll, Motion};
use lekh::document::Document;
use lekh::position::Position;
use lekh::terminal::{Size, Terminal};

fn doc() -> Document {
    Document::from_contents("t.txt", "abc\nde\n\nlonger line\n")
}

fn at(x: usize, y: usize) -> Position {
    Position { x, y }
}

#[test]
fn right_wraps_to_next_line() {
    let d = doc();
    assert_eq!(move_cursor(&d, at(1, 0), Motion::Right, 10), at(2, 0));
    assert_eq!(move_cursor(&d, at(3, 0), Motion::Right, 10), at(0, 1));
    assert_eq!(move_cursor(&d, at(0, 4), Motion::Right, 10), at(0, 4));
}

#[test]
fn left_wraps_to_previous_line_end() {
    let d = doc();
    assert_eq!(move_cursor(&d, at(0, 1), Motion::Left, 10), at(3, 0));
    assert_eq!(move_cursor(&d, at(0, 0), Motion::Left, 10), at(0, 0));
}

#[test]
fn vertical_moves_clamp_column() {
    let d = doc();
    assert_eq!(move_cursor(&d, at(3, 0), Motion::Down, 10), at(2, 1));
    assert_eq!(move_cursor(&d, at(2, 1), Motion::Down, 10), at(0, 2));
    assert_eq!(move_cursor(&d, at(0, 0), Motion::Up, 10), at(0, 0));
    assert_eq!(move_cursor(&d, at(0, 4), Motion::Down, 10), at(0, 4));
}

#[test]
fn page_and_line_ends() {
    let d = doc();
    assert_eq!(move_cursor(&d, at(0, 0), Motion::PageDown, 2), at(0, 2));
    assert_eq!(move_cursor(&d, at(0, 3), Motion::PageDown, 2), at(0, 4));
    assert_eq!(move_cursor(&d, at(0, 3), Motion::PageUp, 2), at(0, 1));
    assert_eq!(move_cursor(&d, at(0, 1), Motion::PageUp, 2), at(0, 0));
    assert_eq!(move_cursor(&d, at(0, 3), Motion::End, 2), at(11, 3));
    assert_eq!(move_cursor(&d, at(5, 3), Motion::Home, 2), at(0, 3));
}

#[test]
fn scroll_follows_cursor() {
    assert_eq!(scroll(at(5, 5), at(0, 0), 80, 24), at(0, 0));
    assert_eq!(scroll(at(100, 30), at(0, 0), 80, 24), at(21, 7));
    assert_eq!(scroll(at(2, 3), at(10, 10), 80, 24), at(2, 3));
}

#[test]
fn terminal_keeps_two_rows_for_bars() {
    let mut t = Terminal::new(80, 24);
    assert_eq!(*t.get_size(), Size { width: 80, height: 22 });
    t.set_size(100, 1);
    assert_eq!(*t.get_size(), Size { width: 100, height: 0 });
}
