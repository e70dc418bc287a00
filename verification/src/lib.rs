//! A text-run compositor over fixed-point geometry.
//!
//! The compositor turns positioned glyphs and a run style into batched draw
//! commands (flat rectangles, image glyphs and mask glyphs), gaps underlines
//! around descenders, and records every run as a list that can be replayed
//! without touching the caches again.

pub mod batch;
pub mod brush;
pub mod color;
pub mod compositor;
pub mod fixed;
pub mod glyph_cache;
pub mod image_cache;
pub mod text;
pub mod underline;
