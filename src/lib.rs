//! A styled-text buffer with a logical cursor, rendered as line-grouped styled
//! runs for display inside a UI tree.

pub mod cursor;
pub mod lines;
pub mod style;
pub mod terminal;
pub mod writer;
