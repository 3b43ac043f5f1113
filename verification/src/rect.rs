use vstd::prelude::*;

use crate::cell::Cell;
use crate::color::Color;
use crate::terminal::Terminal;
use vstd::string::StrSliceExecFns;

verus! {

/// An axis-aligned rectangle in screen coordinates: the unit of layout and
/// the owner of a border color and an optional title. A rectangle is
/// consumed when it is split or when it becomes a widget's area.
pub struct Rectangle {
    pub title: Option<String>,
    pub x: usize,
    pub y: usize,
    pub width: usize,
    pub height: usize,
    pub border_color: Color,
}

impl Rectangle {
    /// The number of characters of the title, zero when none is set.
    pub open spec fn spec_title_len(self) -> int {
        match self.title {
            Some(t) => t@.len() as int,
            None => 0,
        }
    }

    /// A non-degenerate rectangle whose title, when one is set, fits on the
    /// top border.
    pub open spec fn wf(self) -> bool {
        &&& self.width >= 1
        &&& self.height >= 1
        &&& (match self.title {
            Some(t) => t@.len() + 2 <= self.width,
            None => true,
        })
    }

    /// `(gx, gy)` lies inside the rectangle, in screen coordinates.
    pub open spec fn covers(self, gx: int, gy: int) -> bool {
        self.x <= gx < self.x + self.width && self.y <= gy < self.y + self.height
    }

    /// The rectangle lies on the screen of `t`.
    pub open spec fn fits(self, t: Terminal) -> bool {
        self.x + self.width <= t.width && self.y + self.height <= t.height
    }

    /// `(lx, ly)`, in rectangle-local coordinates, lies on the outermost
    /// ring of cells.
    pub open spec fn on_border(self, lx: int, ly: int) -> bool {
        ly == 0 || ly == self.height - 1 || lx == 0 || lx == self.width - 1
    }

    /// The line or corner glyph drawn at local `(lx, ly)` of the ring.
    pub open spec fn border_glyph(self, lx: int, ly: int) -> char {
        if ly == 0 {
            if lx == 0 {
                '\u{250c}'
            } else if lx == self.width - 1 {
                '\u{2510}'
            } else {
                '\u{2500}'
            }
        } else if ly == self.height - 1 {
            if lx == 0 {
                '\u{2514}'
            } else if lx == self.width - 1 {
                '\u{2518}'
            } else {
                '\u{2500}'
            }
        } else {
            '\u{2502}'
        }
    }

    /// Local `(lx, ly)` shows a character of the title, which starts at
    /// offset 2 of the top border.
    pub open spec fn title_covers(self, lx: int, ly: int) -> bool {
        ly == 0 && self.title is Some && 2 <= lx < 2 + self.spec_title_len()
    }

    /// What the frame pass alone leaves at screen position `(gx, gy)` whose
    /// previous content is `prev`: the ring glyphs take the border color and
    /// keep the background; every other cell is untouched.
    pub open spec fn border_pass_cell(self, prev: Cell, gx: int, gy: int) -> Cell {
        if self.covers(gx, gy) && self.on_border(gx - self.x, gy - self.y) {
            Cell {
                character: self.border_glyph(gx - self.x, gy - self.y),
                foreground_color: self.border_color,
                background_color: prev.background_color,
            }
        } else {
            prev
        }
    }

    /// What rendering the rectangle leaves at screen position `(gx, gy)`:
    /// the frame pass, then the title characters written over the top
    /// border.
    pub open spec fn rendered_cell(self, prev: Cell, gx: int, gy: int) -> Cell {
        if self.covers(gx, gy) && self.title_covers(gx - self.x, gy - self.y) {
            Cell {
                character: match self.title {
                    Some(t) => t@[gx - self.x - 2],
                    None => prev.character,
                },
                foreground_color: self.border_color,
                background_color: prev.background_color,
            }
        } else {
            self.border_pass_cell(prev, gx, gy)
        }
    }

    /// A fresh rectangle with the default border color.
    pub fn new(title: Option<String>, x: usize, y: usize, width: usize, height: usize) -> (r:
        Rectangle)
        requires
            width >= 1,
            height >= 1,
            (match title {
                Some(t) => t@.len() + 2 <= width,
                None => true,
            }),
        ensures
            r == (Rectangle { title, x, y, width, height, border_color: Color::Default }),
            r.wf(),
    {
        Rectangle { title, x, y, width, height, border_color: Color::Default }
    }

    /// Splits into a left and a right half of equal height at the middle
    /// column; the border color is inherited, the title is not.
    pub fn split_horizontally(self) -> (r: (Rectangle, Rectangle))
        requires
            self.width >= 2,
            self.height >= 1,
            self.x + self.width <= usize::MAX,
        ensures
            r.0.width + r.1.width == self.width,
            r.0.height == self.height && r.1.height == self.height,
            r.0 == (Rectangle {
                title: None,
                x: self.x,
                y: self.y,
                width: (self.width / 2) as usize,
                height: self.height,
                border_color: self.border_color,
            }),
            r.1 == (Rectangle {
                title: None,
                x: (self.x + self.width / 2) as usize,
                y: self.y,
                width: (self.width - self.width / 2) as usize,
                height: self.height,
                border_color: self.border_color,
            }),
            r.0.wf() && r.1.wf(),
    {
        let left_width = self.width / 2;
        self.split_horizontally_at_width(left_width)
    }

    /// Splits into a left part `left_width` columns wide and a right part
    /// holding the remaining columns; both share the row range. The border
    /// color is inherited, the title is not.
    pub fn split_horizontally_at_width(self, left_width: usize) -> (r: (Rectangle, Rectangle))
        requires
            1 <= left_width < self.width,
            self.height >= 1,
            self.x + self.width <= usize::MAX,
        ensures
            r.0.width + r.1.width == self.width,
            r.0.height == self.height && r.1.height == self.height,
            r.0 == (Rectangle {
                title: None,
                x: self.x,
                y: self.y,
                width: left_width,
                height: self.height,
                border_color: self.border_color,
            }),
            r.1 == (Rectangle {
                title: None,
                x: (self.x + left_width) as usize,
                y: self.y,
                width: (self.width - left_width) as usize,
                height: self.height,
                border_color: self.border_color,
            }),
            r.0.wf() && r.1.wf(),
    {
        let left = Rectangle {
            title: None,
            x: self.x,
            y: self.y,
            width: left_width,
            height: self.height,
            border_color: self.border_color,
        };
        let right = Rectangle {
            title: None,
            x: self.x + left_width,
            y: self.y,
            width: self.width - left_width,
            height: self.height,
            border_color: self.border_color,
        };
        (left, right)
    }

    /// Splits into a top and a bottom half of equal width at the middle
    /// row; the border color is inherited, the title is not.
    pub fn split_vertically(self) -> (r: (Rectangle, Rectangle))
        requires
            self.height >= 2,
            self.width >= 1,
            self.y + self.height <= usize::MAX,
        ensures
            r.0.height + r.1.height == self.height,
            r.0.width == self.width && r.1.width == self.width,
            r.0 == (Rectangle {
                title: None,
                x: self.x,
                y: self.y,
                width: self.width,
                height: (self.height / 2) as usize,
                border_color: self.border_color,
            }),
            r.1 == (Rectangle {
                title: None,
                x: self.x,
                y: (self.y + self.height / 2) as usize,
                width: self.width,
                height: (self.height - self.height / 2) as usize,
                border_color: self.border_color,
            }),
            r.0.wf() && r.1.wf(),
    {
        let top_height = self.height / 2;
        self.split_vertically_at_height(top_height)
    }

    /// Splits into a top part `top_height` rows tall and a bottom part
    /// holding the remaining rows; both share the column range. The border
    /// color is inherited, the title is not.
    pub fn split_vertically_at_height(self, top_height: usize) -> (r: (Rectangle, Rectangle))
        requires
            1 <= top_height < self.height,
            self.width >= 1,
            self.y + self.height <= usize::MAX,
        ensures
            r.0.height + r.1.height == self.height,
            r.0.width == self.width && r.1.width == self.width,
            r.0 == (Rectangle {
                title: None,
                x: self.x,
                y: self.y,
                width: self.width,
                height: top_height,
                border_color: self.border_color,
            }),
            r.1 == (Rectangle {
                title: None,
                x: self.x,
                y: (self.y + top_height) as usize,
                width: self.width,
                height: (self.height - top_height) as usize,
                border_color: self.border_color,
            }),
            r.0.wf() && r.1.wf(),
    {
        let top = Rectangle {
            title: None,
            x: self.x,
            y: self.y,
            width: self.width,
            height: top_height,
            border_color: self.border_color,
        };
        let bottom = Rectangle {
            title: None,
            x: self.x,
            y: self.y + top_height,
            width: self.width,
            height: self.height - top_height,
            border_color: self.border_color,
        };
        (top, bottom)
    }

    pub fn width(&self) -> (r: usize)
        ensures
            r == self.width,
    {
        self.width
    }

    pub fn height(&self) -> (r: usize)
        ensures
            r == self.height,
    {
        self.height
    }

    pub fn set_border_color(&mut self, color: Color)
        ensures
            *final(self) == (Rectangle { border_color: color, ..*old(self) }),
    {
        self.border_color = color;
    }

    pub fn set_title(&mut self, title: Option<String>)
        requires
            (match title {
                Some(t) => t@.len() + 2 <= old(self).width,
                None => true,
            }),
        ensures
            *final(self) == (Rectangle { title, ..*old(self) }),
    {
        self.title = title;
    }

    /// Draws the single-cell-thick border ring in the border color, leaving
    /// interior cells untouched, then writes the title characters over the
    /// top border starting at local offset 2.
    pub fn render(&self, terminal: &mut Terminal)
        requires
            old(terminal).wf(),
            self.wf(),
            self.fits(*old(terminal)),
        ensures
            final(terminal).wf(),
            final(terminal).same_size(*old(terminal)),
            forall|gx: int, gy: int|
                old(terminal).in_range(gx, gy) ==> final(terminal).spec_cell(gx, gy)
                    == self.rendered_cell(old(terminal).spec_cell(gx, gy), gx, gy),
    {
        let ghost t0 = *terminal;
        let mut ly: usize = 0;
        while ly < self.height
            invariant
                terminal.wf(),
                terminal.same_size(t0),
                t0.wf(),
                self.wf(),
                self.fits(t0),
                ly <= self.height,
                forall|gx: int, gy: int|
                    t0.in_range(gx, gy) ==> terminal.spec_cell(gx, gy) == (if self.covers(gx, gy)
                        && gy - self.y < ly {
                        self.border_pass_cell(t0.spec_cell(gx, gy), gx, gy)
                    } else {
                        t0.spec_cell(gx, gy)
                    }),
            decreases self.height - ly,
        {
            let mut lx: usize = 0;
            while lx < self.width
                invariant
                    terminal.wf(),
                    terminal.same_size(t0),
                    t0.wf(),
                    self.wf(),
                    self.fits(t0),
                    ly < self.height,
                    lx <= self.width,
                    forall|gx: int, gy: int|
                        t0.in_range(gx, gy) ==> terminal.spec_cell(gx, gy) == (if self.covers(
                            gx,
                            gy,
                        ) && (gy - self.y < ly || (gy - self.y == ly && gx - self.x < lx)) {
                            self.border_pass_cell(t0.spec_cell(gx, gy), gx, gy)
                        } else {
                            t0.spec_cell(gx, gy)
                        }),
                decreases self.width - lx,
            {
                if ly == 0 || ly == self.height - 1 || lx == 0 || lx == self.width - 1 {
                    let glyph: char = if ly == 0 {
                        if lx == 0 {
                            '\u{250c}'
                        } else if lx == self.width - 1 {
                            '\u{2510}'
                        } else {
                            '\u{2500}'
                        }
                    } else if ly == self.height - 1 {
                        if lx == 0 {
                            '\u{2514}'
                        } else if lx == self.width - 1 {
                            '\u{2518}'
                        } else {
                            '\u{2500}'
                        }
                    } else {
                        '\u{2502}'
                    };
                    let gx = self.x + lx;
                    let gy = self.y + ly;
                    let mut cell = terminal.cell_at(gx, gy);
                    cell.character = glyph;
                    cell.foreground_color = self.border_color;
                    terminal.put_cell(gx, gy, cell);
                }
                lx = lx + 1;
            }
            ly = ly + 1;
        }
        if let Some(title) = &self.title {
            let n = title.as_str().unicode_len();
            let mut i: usize = 0;
            while i < n
                invariant
                    terminal.wf(),
                    terminal.same_size(t0),
                    t0.wf(),
                    self.wf(),
                    self.fits(t0),
                    self.title matches Some(t) && t@ == title@,
                    n == title@.len(),
                    i <= n,
                    forall|gx: int, gy: int|
                        t0.in_range(gx, gy) ==> terminal.spec_cell(gx, gy) == (if self.covers(
                            gx,
                            gy,
                        ) && gy == self.y && 2 <= gx - self.x < 2 + i {
                            self.rendered_cell(t0.spec_cell(gx, gy), gx, gy)
                        } else {
                            self.border_pass_cell(t0.spec_cell(gx, gy), gx, gy)
                        }),
                decreases n - i,
            {
                let c = title.as_str().get_char(i);
                let gx = self.x + 2 + i;
                let gy = self.y;
                let mut cell = terminal.cell_at(gx, gy);
                cell.character = c;
                terminal.put_cell(gx, gy, cell);
                i = i + 1;
            }
        }
        proof {
            assert forall|gx: int, gy: int| t0.in_range(gx, gy) implies terminal.spec_cell(gx, gy)
                == self.rendered_cell(t0.spec_cell(gx, gy), gx, gy) by {}
        }
    }
}

} // verus!
