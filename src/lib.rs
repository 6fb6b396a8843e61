//! A line editor's text model: grapheme-aware lines, a document of lines with
//! editing and search, and the cursor rules of the editing session.

pub mod cursor;
pub mod document;
pub mod position;
pub mod row;
pub mod session;
pub mod terminal;
