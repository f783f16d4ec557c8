//! Verified rendering core for palette-indexed pixel-art preview cards.
//!
//! The crate decodes hex-encoded run-length icon descriptions, composites
//! them layer by layer onto an owned raster canvas, and chooses the largest
//! font size at which a display string fits a width budget on one line.

pub mod canvas;
pub mod card;
pub mod compose;
pub mod error;
pub mod hexstr;
pub mod nouns;
pub mod text;
