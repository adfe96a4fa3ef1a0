//! Styled terminal text: fragments of text with a style, lines of fragments
//! and blocks of lines, with Unicode-aware display-width measurement.
//!
//! Widths follow `unicode_width`'s per-character table, in which characters
//! of ambiguous East Asian width count as narrow (one column); a line's width
//! is the sum of its characters' widths.

pub mod columns;
pub mod style;
pub mod text;

pub use style::{Color, Style};
pub use text::{Fragment, IntoContent, Line, Text};
