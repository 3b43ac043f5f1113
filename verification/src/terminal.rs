use vstd::prelude::*;

use crate::cell::{default_cell, Cell};
use crate::color::{background_escape, foreground_escape, Color};
use crate::rect::Rectangle;

verus! {

/// The shared rendering target: a flat, row-major grid of `width * height`
/// cells. Widgets write into it in caller-chosen order (later writes win),
/// and `draw` serializes it once per frame into a stream of glyphs and
/// color escape sequences.
pub struct Terminal {
    pub buffer: Vec<Cell>,
    pub width: usize,
    pub height: usize,
}

/// Distinct screen positions map to distinct row-major buffer indices.
proof fn lemma_row_major_injective(w: int, x1: int, y1: int, x2: int, y2: int)
    requires
        0 <= x1 < w,
        0 <= x2 < w,
        0 <= y1,
        0 <= y2,
        !(x1 == x2 && y1 == y2),
    ensures
        y1 * w + x1 != y2 * w + x2,
{
    if y1 == y2 {
    } else if y1 < y2 {
        assert((y1 + 1) * w <= y2 * w) by (nonlinear_arith)
            requires y1 + 1 <= y2 && w > 0;
        assert(y1 * w + x1 < y2 * w + x2) by (nonlinear_arith)
            requires (y1 + 1) * w <= y2 * w && x1 < w && 0 <= x2;
    } else {
        assert((y2 + 1) * w <= y1 * w) by (nonlinear_arith)
            requires y2 + 1 <= y1 && w > 0;
        assert(y2 * w + x2 < y1 * w + x1) by (nonlinear_arith)
            requires (y2 + 1) * w <= y1 * w && x2 < w && 0 <= x1;
    }
}

/// Every in-range screen position indexes inside the buffer.
proof fn lemma_row_major_in_range(w: int, h: int, x: int, y: int)
    requires
        0 <= x < w,
        0 <= y < h,
    ensures
        0 <= y * w + x < w * h,
{
    assert(y * w + x < w * h) by (nonlinear_arith)
        requires 0 <= x < w && 0 <= y && y + 1 <= h;
    assert(0 <= y * w) by (nonlinear_arith)
        requires 0 <= y && 0 <= w;
}

/// The escape sequence that clears the whole screen.
pub open spec fn clear_escape() -> Seq<char> {
    seq!['\u{1b}', '[', '2', 'J']
}

/// The characters emitted for `cells` scanned left to right, starting from
/// the colors `fg`/`bg`: a foreground or background escape appears exactly
/// where the cell's color differs from the last emitted one, followed by
/// the cell's glyph.
pub open spec fn flush_escapes(cells: Seq<Cell>, fg: Color, bg: Color) -> Seq<char>
    decreases cells.len(),
{
    if cells.len() == 0 {
        Seq::empty()
    } else {
        let cell = cells[0];
        let fg_part = if cell.foreground_color != fg {
            foreground_escape(cell.foreground_color)
        } else {
            Seq::<char>::empty()
        };
        let bg_part = if cell.background_color != bg {
            background_escape(cell.background_color)
        } else {
            Seq::<char>::empty()
        };
        fg_part + bg_part + seq![cell.character] + flush_escapes(
            cells.drop_first(),
            cell.foreground_color,
            cell.background_color,
        )
    }
}

/// Everything one frame writes to the terminal: clear the screen, reset
/// both colors to the default, then the coalesced cell stream.
pub open spec fn frame_output(cells: Seq<Cell>) -> Seq<char> {
    clear_escape() + foreground_escape(Color::Default) + background_escape(Color::Default)
        + flush_escapes(cells, Color::Default, Color::Default)
}

/// Unfolds one scan step of `flush_escapes` at position `i` of `buffer`.
proof fn lemma_flush_step(buffer: Seq<Cell>, i: int, fg0: Color, bg0: Color)
    requires
        0 <= i < buffer.len(),
    ensures
        flush_escapes(buffer.skip(i), fg0, bg0) == (if buffer[i].foreground_color != fg0 {
            foreground_escape(buffer[i].foreground_color)
        } else {
            Seq::<char>::empty()
        }) + (if buffer[i].background_color != bg0 {
            background_escape(buffer[i].background_color)
        } else {
            Seq::<char>::empty()
        }) + seq![buffer[i].character] + flush_escapes(
            buffer.skip(i + 1),
            buffer[i].foreground_color,
            buffer[i].background_color,
        ),
{
    let rest = buffer.skip(i);
    assert(rest[0] == buffer[i]);
    assert(rest.drop_first() =~= buffer.skip(i + 1));
}

impl Terminal {
    /// The buffer holds exactly one cell per screen position.
    pub open spec fn wf(self) -> bool {
        self.buffer@.len() == self.width * self.height
    }

    /// The cell at screen column `x`, row `y`.
    pub open spec fn spec_cell(self, x: int, y: int) -> Cell {
        self.buffer@[y * self.width + x]
    }

    /// `(x, y)` lies on the screen.
    pub open spec fn in_range(self, x: int, y: int) -> bool {
        0 <= x < self.width && 0 <= y < self.height
    }

    /// Both terminals have the same dimensions.
    pub open spec fn same_size(self, other: Terminal) -> bool {
        self.width == other.width && self.height == other.height
    }

    /// A fresh buffer of `width * height` default cells.
    pub fn new(width: usize, height: usize) -> (r: Terminal)
        requires
            width * height <= usize::MAX,
        ensures
            r.wf(),
            r.width == width,
            r.height == height,
            forall|x: int, y: int| r.in_range(x, y) ==> r.spec_cell(x, y) == default_cell(),
    {
        let n = width * height;
        let mut buffer: Vec<Cell> = Vec::new();
        let mut i: usize = 0;
        while i < n
            invariant
                i <= n,
                buffer@.len() == i,
                forall|k: int| 0 <= k < i ==> buffer@[k] == default_cell(),
            decreases n - i,
        {
            buffer.push(Cell::default());
            i = i + 1;
        }
        let r = Terminal { buffer, width, height };
        proof {
            assert forall|x: int, y: int| r.in_range(x, y) implies r.spec_cell(x, y)
                == default_cell() by {
                lemma_row_major_in_range(width as int, height as int, x, y);
            }
        }
        r
    }

    fn cell_index(&self, x: usize, y: usize) -> (r: usize)
        requires
            self.wf(),
            self.in_range(x as int, y as int),
        ensures
            r == y * self.width + x,
            r < self.buffer@.len(),
    {
        proof {
            lemma_row_major_in_range(self.width as int, self.height as int, x as int, y as int);
            assert(self.buffer.len() == self.buffer@.len());
        }
        y * self.width + x
    }

    /// Reads the cell at `(x, y)`.
    pub fn cell_at(&self, x: usize, y: usize) -> (r: Cell)
        requires
            self.wf(),
            self.in_range(x as int, y as int),
        ensures
            r == self.spec_cell(x as int, y as int),
    {
        let i = self.cell_index(x, y);
        self.buffer[i]
    }

    /// Replaces the cell at `(x, y)`, leaving every other cell untouched.
    pub fn put_cell(&mut self, x: usize, y: usize, cell: Cell)
        requires
            old(self).wf(),
            old(self).in_range(x as int, y as int),
        ensures
            final(self).wf(),
            final(self).same_size(*old(self)),
            final(self).spec_cell(x as int, y as int) == cell,
            forall|gx: int, gy: int|
                old(self).in_range(gx, gy) && !(gx == x && gy == y) ==> final(self).spec_cell(
                    gx,
                    gy,
                ) == old(self).spec_cell(gx, gy),
    {
        let i = self.cell_index(x, y);
        self.buffer[i] = cell;
        proof {
            assert forall|gx: int, gy: int|
                old(self).in_range(gx, gy) && !(gx == x && gy == y) implies self.spec_cell(gx, gy)
                == old(self).spec_cell(gx, gy) by {
                lemma_row_major_injective(self.width as int, gx, gy, x as int, y as int);
                lemma_row_major_in_range(self.width as int, self.height as int, gx, gy);
            }
        }
    }

    /// A rectangle spanning the whole screen, the root of the layout tree.
    pub fn area(&self) -> (r: Rectangle)
        requires
            self.width >= 1,
            self.height >= 1,
        ensures
            r == (Rectangle {
                title: None,
                x: 0,
                y: 0,
                width: self.width,
                height: self.height,
                border_color: Color::Default,
            }),
            r.wf(),
            r.fits(*self),
    {
        Rectangle::new(None, 0, 0, self.width, self.height)
    }

    /// Serializes the buffer into the characters of one frame and clears
    /// every cell back to the default, ready for the next render cycle.
    #[verifier::rlimit(60)]
    pub fn draw(&mut self) -> (out: Vec<char>)
        requires
            old(self).wf(),
        ensures
            final(self).wf(),
            final(self).same_size(*old(self)),
            out@ == frame_output(old(self).buffer@),
            forall|i: int|
                0 <= i < final(self).buffer@.len() ==> final(self).buffer@[i] == default_cell(),
    {
        let mut out: Vec<char> = Vec::new();
        out.push('\u{1b}');
        out.push('[');
        out.push('2');
        out.push('J');
        let mut fg = Color::Default;
        let mut bg = Color::Default;
        fg.push_foreground(&mut out);
        bg.push_background(&mut out);
        proof {
            assert(out@ =~= clear_escape() + foreground_escape(Color::Default) + background_escape(
                Color::Default,
            ));
            assert(self.buffer@.skip(0) =~= self.buffer@);
        }
        let n = self.buffer.len();
        let mut i: usize = 0;
        while i < n
            invariant
                *self == *old(self),
                n == self.buffer@.len(),
                i <= n,
                out@ + flush_escapes(self.buffer@.skip(i as int), fg, bg) == frame_output(
                    self.buffer@,
                ),
            decreases n - i,
        {
            let ghost prev_out = out@;
            let ghost prev_fg = fg;
            let ghost prev_bg = bg;
            let ghost rest = self.buffer@.skip(i as int);
            let cell = self.buffer[i];
            if cell.foreground_color != fg {
                fg = cell.foreground_color;
                fg.push_foreground(&mut out);
            }
            if cell.background_color != bg {
                bg = cell.background_color;
                bg.push_background(&mut out);
            }
            out.push(cell.character);
            proof {
                lemma_flush_step(self.buffer@, i as int, prev_fg, prev_bg);
                let fg_part: Seq<char> = if cell.foreground_color != prev_fg {
                    foreground_escape(cell.foreground_color)
                } else {
                    Seq::<char>::empty()
                };
                let bg_part: Seq<char> = if cell.background_color != prev_bg {
                    background_escape(cell.background_color)
                } else {
                    Seq::<char>::empty()
                };
                assert(out@ =~= prev_out + fg_part + bg_part + seq![cell.character]);
                assert(out@ + flush_escapes(self.buffer@.skip(i + 1), fg, bg) =~= prev_out
                    + flush_escapes(rest, prev_fg, prev_bg));
            }
            i = i + 1;
        }
        proof {
            assert(self.buffer@.skip(n as int) =~= Seq::<Cell>::empty());
        }
        let mut j: usize = 0;
        while j < n
            invariant
                n == self.buffer@.len(),
                self.wf(),
                self.same_size(*old(self)),
                j <= n,
                forall|k: int| 0 <= k < j ==> self.buffer@[k] == default_cell(),
            decreases n - j,
        {
            self.buffer[j] = Cell::default();
            j = j + 1;
        }
        out
    }
}

} // verus!
