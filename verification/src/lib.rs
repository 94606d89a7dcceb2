//! Verified core of a node-and-arrow diagram editor.

pub mod pixel;
pub mod text;
pub mod pkv;
pub mod workspace;
pub mod editing;
pub mod canvas;
pub mod startup;
pub mod md;
pub mod ui;
pub mod images;
