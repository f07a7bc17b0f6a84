//! Converts an indentation-structured shorthand markup into nested tags.
//!
//! `text` holds the character-level helpers, `node` the element type, `line`
//! the grammar of one line, `render` the serializer, `file` the
//! indentation-driven tree builder and `outline` what holds of the depth at
//! which it nests each line.

pub mod text;
pub mod node;
pub mod line;
pub mod render;
pub mod file;
pub mod outline;
