//! Markdown rendering into styled text spans and lines.

pub mod lines;
pub mod sections;
pub mod spans;
pub mod style;
pub mod tree;
