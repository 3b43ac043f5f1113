use vstd::prelude::*;

use crate::color::Color;

verus! {

/// One character position of the screen grid: a glyph together with its
/// foreground and background color.
#[derive(Clone, Copy, PartialEq, Eq, Structural, Debug)]
pub struct Cell {
    pub character: char,
    pub foreground_color: Color,
    pub background_color: Color,
}

/// The cell the buffer is filled with between frames: a space glyph in the
/// terminal's default colors.
pub open spec fn default_cell() -> Cell {
    Cell { character: ' ', foreground_color: Color::Default, background_color: Color::Default }
}

impl Default for Cell {
    fn default() -> (r: Cell)
        ensures
            r == default_cell(),
    {
        Cell { character: ' ', foreground_color: Color::Default, background_color: Color::Default }
    }
}

} // verus!
