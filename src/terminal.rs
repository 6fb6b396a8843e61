use vstd::prelude::*;

verus! {

/// The room for text on the screen, in cells.
#[derive(PartialEq, Eq, Structural, Copy, Clone, Debug)]
pub struct Size {
    pub width: u16,
    pub height: u16,
}

/// The screen as the editor sees it: two rows go to the status and message
/// bars, the rest to text.
pub struct Terminal {
    size: Size,
}

/// The text rows of a screen with `rows` rows.
pub open spec fn text_rows(rows: u16) -> u16 {
    if rows >= 2 {
        (rows - 2) as u16
    } else {
        0
    }
}

impl Terminal {
    /// The room for text on the screen.
    pub closed spec fn room(&self) -> Size {
        self.size
    }

    /// A screen of `columns` by `rows` cells.
    pub fn new(columns: u16, rows: u16) -> (r: Terminal)
        ensures
            r.room() == (Size { width: columns, height: text_rows(rows) }),
    {
        Terminal { size: Size { width: columns, height: rows.saturating_sub(2) } }
    }

    /// The room for text on the screen.
    pub fn get_size(&self) -> (r: &Size)
        ensures
            *r == self.room(),
    {
        &self.size
    }

    /// Records that the screen is now `width` by `height` cells.
    pub fn set_size(&mut self, width: u16, height: u16)
        ensures
            final(self).room() == (Size { width, height: text_rows(height) }),
    {
        self.size = Size { width, height: height.saturating_sub(2) };
    }
}

} // verus!
