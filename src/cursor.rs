use vstd::prelude::*;

use crate::document::Document;
use crate::position::Position;

verus! {

/// A key that moves the cursor.
#[derive(PartialEq, Eq, Structural, Copy, Clone, Debug)]
pub enum Motion {
    Up,
    Down,
    Left,
    Right,
    PageUp,
    PageDown,
    Home,
    End,
}

/// `a + b`, or the largest `usize` where that is larger.
pub open spec fn sat_add(a: int, b: int) -> int {
    if a + b > usize::MAX {
        usize::MAX as int
    } else {
        a + b
    }
}

/// `a - b`, or zero where that is negative.
pub open spec fn sat_sub(a: int, b: int) -> int {
    if a - b < 0 {
        0
    } else {
        a - b
    }
}

/// The grapheme count of line `y`, or zero past the last line.
pub open spec fn width_at(doc: &Document, y: int) -> int {
    if 0 <= y < doc.rows().len() {
        doc.rows()[y].length() as int
    } else {
        0
    }
}

/// The cursor after `motion` from `(x, y)`, before it is pulled back onto its
/// line; a page is `page` lines.
pub open spec fn step(doc: &Document, x: int, y: int, motion: Motion, page: int) -> (int, int) {
    let height = doc.rows().len() as int;
    match motion {
        Motion::Up => (x, sat_sub(y, 1)),
        Motion::Down => (x, if y < height { y + 1 } else { y }),
        Motion::Left => if x > 0 {
            (x - 1, y)
        } else if y > 0 {
            (width_at(doc, y - 1), y - 1)
        } else {
            (x, y)
        },
        Motion::Right => if x < width_at(doc, y) {
            (x + 1, y)
        } else if y < height {
            (0, y + 1)
        } else {
            (x, y)
        },
        Motion::PageUp => (x, if y > page { y - page } else { 0 }),
        Motion::PageDown => (x, if sat_add(y, page) < height { y + page } else { height }),
        Motion::Home => (0, y),
        Motion::End => (width_at(doc, y), y),
    }
}

/// The cursor after `motion` from `cursor`: it may rest one line past the
/// last, and never beyond the end of its line.
pub open spec fn moved(doc: &Document, cursor: Position, motion: Motion, page: int) -> (int, int) {
    let (x, y) = step(doc, cursor.x as int, cursor.y as int, motion, page);
    (if x > width_at(doc, y) { width_at(doc, y) } else { x }, y)
}

/// The grapheme count of line `y` of `doc`, or zero past the last line.
fn width_of(doc: &Document, y: usize) -> (r: usize)
    ensures
        r == width_at(doc, y as int),
{
    match doc.row(y) {
        Some(row) => row.len(),
        None => 0,
    }
}

/// Moves the cursor by `motion`; a page is `page` lines.
pub fn move_cursor(doc: &Document, cursor: Position, motion: Motion, page: usize) -> (r: Position)
    ensures
        (r.x as int, r.y as int) == moved(doc, cursor, motion, page as int),
{
    let height = doc.len();
    let Position { mut x, mut y } = cursor;
    let width = width_of(doc, y);
    match motion {
        Motion::Up => {
            y = y.saturating_sub(1);
        },
        Motion::Down => {
            if y < height {
                y = y + 1;
            }
        },
        Motion::Left => {
            if x > 0 {
                x -= 1;
            } else if y > 0 {
                y -= 1;
                x = width_of(doc, y);
            }
        },
        Motion::Right => {
            if x < width {
                x += 1;
            } else if y < height {
                y += 1;
                x = 0;
            }
        },
        Motion::PageUp => {
            y = if y > page {
                y - page
            } else {
                0
            };
        },
        Motion::PageDown => {
            y = if y.saturating_add(page) < height {
                y + page
            } else {
                height
            };
        },
        Motion::Home => {
            x = 0;
        },
        Motion::End => {
            x = width;
        },
    }
    let width = width_of(doc, y);
    if x > width {
        x = width;
    }
    Position { x, y }
}

/// The first visible coordinate after scrolling so that `at` shows in a
/// window of `size` cells that started at `offset`.
pub open spec fn scrolled(at: int, offset: int, size: int) -> int {
    if at < offset {
        at
    } else if at >= sat_add(offset, size) {
        sat_add(sat_sub(at, size), 1)
    } else {
        offset
    }
}

/// The first visible coordinate along one axis after scrolling.
fn scroll_axis(at: usize, offset: usize, size: usize) -> (r: usize)
    ensures
        r == scrolled(at as int, offset as int, size as int),
{
    if at < offset {
        at
    } else if at >= offset.saturating_add(size) {
        at.saturating_sub(size).saturating_add(1)
    } else {
        offset
    }
}

/// The view's top-left corner after scrolling so that `cursor` shows on a
/// screen of `width` by `height` text cells.
pub fn scroll(cursor: Position, offset: Position, width: usize, height: usize) -> (r: Position)
    ensures
        r.x == scrolled(cursor.x as int, offset.x as int, width as int),
        r.y == scrolled(cursor.y as int, offset.y as int, height as int),
{
    Position {
        x: scroll_axis(cursor.x, offset.x, width),
        y: scroll_axis(cursor.y, offset.y, height),
    }
}

} // verus!
