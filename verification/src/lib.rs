//! Styled text splitting: an inline markup parser and a per-character layout engine.
//!
//! A text with inline tags is parsed into runs, each a piece of literal text with the
//! style in force where it stands ([`parser`]). The runs of a block are then laid out:
//! every character gets a position of its own, so that a host can replace the one text
//! by one object per character ([`layout`]).
//!
//! - [`parser`]: `parse_markup`, what it returns for every input, and the laws of a scan
//! - [`tags`]: the four tags and the text between them
//! - [`style`]: runs, styles and what a tag does to a style
//! - [`number`]: which texts are decimal literals
//! - [`layout`]: `layout`, the measure of a block and the walk of the pen
//! - [`alignment`]: `parse_alignment` and the anchoring of a block
//! - [`text`]: searches in character sequences

pub mod alignment;
pub mod layout;
pub mod number;
pub mod parser;
pub mod style;
pub mod tags;
pub mod text;
