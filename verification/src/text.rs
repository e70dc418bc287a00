//! What a caller says of a text run: its glyphs and its style.

use vstd::prelude::*;
use crate::color::Color;
use crate::fixed::Fixed;

verus! {

/// One positioned glyph: its number in the font and the pen position, in the
/// coordinates of the run.
#[derive(Clone, Copy, Debug, PartialEq, Eq, Structural)]
pub struct Glyph {
    pub id: u16,
    pub x: Fixed,
    pub y: Fixed,
}

/// How a run is underlined.
#[derive(Clone, Copy, Debug, PartialEq, Eq, Structural)]
pub struct UnderlineStyle {
    /// How far above the baseline the underline lies.
    pub offset: Fixed,
    /// How thick it is.
    pub size: Fixed,
    pub color: Color,
}

/// The cursor drawn over a run.
#[derive(Clone, Copy, Debug, PartialEq, Eq, Structural)]
pub enum SugarCursor {
    /// A box over the whole cell.
    Block(Color),
    /// A thin bar at the left edge of the cell.
    Caret(Color),
    /// No cursor.
    Disabled,
}

/// The style of one run.
#[derive(Clone, Debug, PartialEq, Eq)]
pub struct TextRunStyle {
    /// The key of the font.
    pub font: u64,
    /// The normalized variation coordinates of the font.
    pub font_coords: Vec<i16>,
    pub font_size: Fixed,
    /// The color of the text.
    pub color: Color,
    pub background_color: Option<Color>,
    pub underline: Option<UnderlineStyle>,
    pub cursor: SugarCursor,
    /// The baseline of the line.
    pub baseline: Fixed,
    /// The top of the line.
    pub topline: Fixed,
    pub line_height: Fixed,
}

} // verus!
