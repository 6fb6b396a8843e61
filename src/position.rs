use vstd::prelude::*;

verus! {

/// The way a search walks through the text.
#[derive(PartialEq, Eq, Structural, Copy, Clone, Debug)]
pub enum SearchDirection {
    Forward,
    Backward,
}

/// A place in a document: `x` is a grapheme index within the line, `y` the
/// zero-based line index.
#[derive(PartialEq, Eq, Structural, Copy, Clone, Debug)]
pub struct Position {
    pub x: usize,
    pub y: usize,
}

impl Position {
    /// The start of the document.
    pub fn default() -> (r: Position)
        ensures
            r.x == 0 && r.y == 0,
    {
        Position { x: 0, y: 0 }
    }
}

} // verus!
