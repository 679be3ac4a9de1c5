//! Drawing laid-out diagrams onto a character canvas.
pub mod canvas;
pub mod flowchart;
pub mod sequence;
pub mod style;
