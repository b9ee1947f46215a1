//! Building blocks shared by every stage.

/// Character classes and UTF-8 widths.
pub mod chars;
/// Integers written out in decimal.
pub mod decimal;
/// Byte positions and half-open source ranges.
pub mod span;
