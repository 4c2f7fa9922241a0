//! Locating the delimiter pairs that surround cursor positions in a text buffer.
pub mod balanced;
pub mod pair;
pub mod search;
pub mod selection;
pub mod surround;
pub mod text;
