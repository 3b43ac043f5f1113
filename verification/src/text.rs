use vstd::prelude::*;

use crate::align::{HorizontalAlignment, VerticalAlignment};
use crate::cell::Cell;
use crate::color::Color;
use crate::rect::Rectangle;
use crate::terminal::Terminal;
use crate::wrap::{count_lines, lemma_wrap_lines_fit, wrap_first, wrap_lines, wrap_rest,
    HardwrappingText};
use vstd::string::StrSliceExecFns;

verus! {

/// A widget that hard-wraps a character sequence to the interior of its
/// region and draws it with the chosen alignment, inside the region's
/// frame. Wrapped lines beyond the interior height are dropped.
pub struct Text {
    pub text: Vec<char>,
    pub vertical_alignment: VerticalAlignment,
    pub horizontal_alignment: HorizontalAlignment,
    pub area: Rectangle,
    pub lines_count: usize,
}

impl Text {
    /// The width lines are wrapped to: the region interior.
    pub open spec fn wrap_width(self) -> int {
        self.area.width - 2
    }

    /// The wrapped lines of the current text.
    pub open spec fn spec_lines(self) -> Seq<Seq<char>> {
        wrap_lines(self.text@, self.wrap_width())
    }

    /// The region is wide enough to wrap into, and the cached line count is
    /// correct for the current text.
    pub open spec fn wf(self) -> bool {
        &&& self.area.wf()
        &&& self.area.width > 2
        &&& self.lines_count == self.spec_lines().len()
    }

    /// How many wrapped lines are actually drawn: all of them, capped at
    /// the interior height.
    pub open spec fn rendered_count(self) -> int {
        if self.spec_lines().len() <= self.area.height - 2 {
            self.spec_lines().len() as int
        } else {
            self.area.height - 2
        }
    }

    /// The local row of the first drawn line. Top-aligned text starts just
    /// below the border; bottom-aligned text ends at the last interior
    /// row; centered text splits the slack. The drawn line count is capped
    /// at the interior height, so the start always lies in the interior.
    pub open spec fn vertical_start(self) -> int {
        let n = self.rendered_count();
        match self.vertical_alignment {
            VerticalAlignment::Top => 1,
            VerticalAlignment::Bottom => self.area.height - 1 - n,
            VerticalAlignment::Center => (self.area.height - n) / 2,
        }
    }

    /// The local column where a drawn line of `len` characters starts.
    pub open spec fn horizontal_start(self, len: int) -> int {
        match self.horizontal_alignment {
            HorizontalAlignment::Left => 1,
            HorizontalAlignment::Right => self.area.width - len - 1,
            HorizontalAlignment::Center => (self.area.width - len) / 2,
        }
    }

    /// Screen position `(gx, gy)` shows a character of one of the first
    /// `upto` drawn lines.
    pub open spec fn content_covers_upto(self, gx: int, gy: int, upto: int) -> bool {
        let y0 = self.vertical_start();
        let l = gy - self.area.y - y0;
        &&& 0 <= l < upto
        &&& l < self.rendered_count()
        &&& {
            let line = self.spec_lines()[l];
            let x0 = self.horizontal_start(line.len() as int);
            self.area.x + x0 <= gx < self.area.x + x0 + line.len()
        }
    }

    /// Screen position `(gx, gy)` shows a character of the drawn text.
    pub open spec fn content_covers(self, gx: int, gy: int) -> bool {
        self.content_covers_upto(gx, gy, self.rendered_count())
    }

    /// What rendering the widget leaves at screen position `(gx, gy)` whose
    /// previous content is `prev`: the region's frame and title, with the
    /// glyphs of the drawn lines written over the interior; colors of
    /// content cells are untouched.
    pub open spec fn rendered_cell(self, prev: Cell, gx: int, gy: int) -> Cell {
        let base = self.area.rendered_cell(prev, gx, gy);
        if self.content_covers(gx, gy) {
            let l = gy - self.area.y - self.vertical_start();
            let line = self.spec_lines()[l];
            Cell {
                character: line[gx - self.area.x - self.horizontal_start(line.len() as int)],
                foreground_color: base.foreground_color,
                background_color: base.background_color,
            }
        } else {
            base
        }
    }

    /// Builds the widget over `area`, precomputing the wrapped line count
    /// of `text` at the interior width.
    pub fn new(
        text: String,
        vertical_alignment: VerticalAlignment,
        horizontal_alignment: HorizontalAlignment,
        area: Rectangle,
    ) -> (r: Text)
        requires
            area.wf(),
            area.width > 2,
        ensures
            r.text@ == text@,
            r.vertical_alignment == vertical_alignment,
            r.horizontal_alignment == horizontal_alignment,
            r.area == area,
            r.wf(),
    {
        let n = text.as_str().unicode_len();
        let mut chars: Vec<char> = Vec::new();
        let mut i: usize = 0;
        while i < n
            invariant
                n == text@.len(),
                i <= n,
                chars@ == text@.take(i as int),
            decreases n - i,
        {
            chars.push(text.as_str().get_char(i));
            proof {
                assert(chars@ =~= text@.take(i + 1));
            }
            i = i + 1;
        }
        proof {
            assert(text@.take(n as int) =~= text@);
        }
        let lines_count = count_lines(&chars, area.width - 2);
        Text { text: chars, vertical_alignment, horizontal_alignment, area, lines_count }
    }

    /// Replaces the text (clearing it when none is given) and recomputes
    /// the wrapped line count, so later renders stay consistent.
    pub fn change_text(&mut self, new_text: Option<String>)
        requires
            old(self).wf(),
        ensures
            final(self).text@ == (match new_text {
                Some(t) => t@,
                None => Seq::<char>::empty(),
            }),
            final(self).vertical_alignment == old(self).vertical_alignment,
            final(self).horizontal_alignment == old(self).horizontal_alignment,
            final(self).area == old(self).area,
            final(self).wf(),
    {
        match new_text {
            Some(text) => {
                let n = text.as_str().unicode_len();
                let mut chars: Vec<char> = Vec::new();
                let mut i: usize = 0;
                while i < n
                    invariant
                        n == text@.len(),
                        i <= n,
                        chars@ == text@.take(i as int),
                    decreases n - i,
                {
                    chars.push(text.as_str().get_char(i));
                    proof {
                        assert(chars@ =~= text@.take(i + 1));
                    }
                    i = i + 1;
                }
                proof {
                    assert(text@.take(n as int) =~= text@);
                }
                self.text = chars;
            },
            None => {
                self.text = Vec::new();
            },
        }
        self.lines_count = count_lines(&self.text, self.area.width - 2);
    }

    pub fn width(&self) -> (r: usize)
        ensures
            r == self.area.width,
    {
        self.area.width
    }

    pub fn height(&self) -> (r: usize)
        ensures
            r == self.area.height,
    {
        self.area.height
    }

    pub fn set_border_color(&mut self, color: Color)
        ensures
            *final(self) == (Text {
                area: (Rectangle { border_color: color, ..old(self).area }),
                ..*old(self)
            }),
    {
        self.area.set_border_color(color);
    }

    pub fn set_title(&mut self, title: Option<String>)
        requires
            (match title {
                Some(t) => t@.len() + 2 <= old(self).area.width,
                None => true,
            }),
        ensures
            *final(self) == (Text {
                area: (Rectangle { title, ..old(self).area }),
                ..*old(self)
            }),
    {
        self.area.set_title(title);
    }

    /// Draws the region's frame, then the wrapped lines (at most interior
    /// height many) with the widget's alignment; content cells keep their
    /// colors and only their glyph changes.
    pub fn render(&self, terminal: &mut Terminal)
        requires
            old(terminal).wf(),
            self.wf(),
            self.area.height >= 2,
            self.area.fits(*old(terminal)),
        ensures
            final(terminal).wf(),
            final(terminal).same_size(*old(terminal)),
            forall|gx: int, gy: int|
                old(terminal).in_range(gx, gy) ==> final(terminal).spec_cell(gx, gy)
                    == self.rendered_cell(old(terminal).spec_cell(gx, gy), gx, gy),
    {
        let ghost t0 = *terminal;
        self.area.render(terminal);
        proof {
            lemma_wrap_lines_fit(self.text@, self.wrap_width());
        }
        let count = if self.lines_count > self.area.height - 2 {
            self.area.height - 2
        } else {
            self.lines_count
        };
        let y0 = match self.vertical_alignment {
            VerticalAlignment::Top => 1,
            VerticalAlignment::Bottom => self.area.height - 1 - count,
            VerticalAlignment::Center => (self.area.height - count) / 2,
        };
        proof {
            assert(count == self.rendered_count());
            assert(y0 == self.vertical_start());
        }
        let mut wrapper = HardwrappingText::new(&self.text, self.area.width - 2);
        let mut li: usize = 0;
        while li < count
            invariant
                terminal.wf(),
                terminal.same_size(t0),
                t0.wf(),
                self.wf(),
                self.area.height >= 2,
                self.area.fits(t0),
                count == self.rendered_count(),
                y0 == self.vertical_start(),
                wrapper.wf(),
                wrapper.width == self.area.width - 2,
                li <= count,
                wrap_lines(wrapper.remaining(), self.wrap_width()) == self.spec_lines().skip(
                    li as int,
                ),
                forall|gx: int, gy: int|
                    t0.in_range(gx, gy) ==> terminal.spec_cell(gx, gy) == (if self.content_covers_upto(
                        gx,
                        gy,
                        li as int,
                    ) {
                        self.rendered_cell(t0.spec_cell(gx, gy), gx, gy)
                    } else {
                        self.area.rendered_cell(t0.spec_cell(gx, gy), gx, gy)
                    }),
            decreases count - li,
        {
            let ghost rem = wrapper.remaining();
            proof {
                assert(self.spec_lines().skip(li as int).len() > 0);
                if rem.len() == 0 {
                    assert(wrap_lines(rem, self.wrap_width()).len() == 0);
                }
            }
            let line = wrapper.next().unwrap();
            proof {
                assert(wrap_lines(rem, self.wrap_width()) == seq![
                    wrap_first(rem, self.wrap_width()),
                ] + wrap_lines(wrap_rest(rem, self.wrap_width()), self.wrap_width()));
                assert(line@ == self.spec_lines().skip(li as int)[0]);
                assert(line@ == self.spec_lines()[li as int]);
                assert(wrap_lines(wrapper.remaining(), self.wrap_width()) =~= self.spec_lines()
                    .skip(li as int).drop_first());
                assert(self.spec_lines().skip(li as int).drop_first() =~= self.spec_lines().skip(
                    li + 1,
                ));
                lemma_wrap_lines_fit(self.text@, self.wrap_width());
                assert(self.spec_lines()[li as int].len() <= self.wrap_width());
            }
            let x0 = match self.horizontal_alignment {
                HorizontalAlignment::Left => 1,
                HorizontalAlignment::Right => self.area.width - line.len() - 1,
                HorizontalAlignment::Center => (self.area.width - line.len()) / 2,
            };
            proof {
                assert(x0 == self.horizontal_start(line@.len() as int));
                assert(1 <= x0);
                assert(x0 + line@.len() <= self.area.width - 1);
            }
            let mut k: usize = 0;
            while k < line.len()
                invariant
                    terminal.wf(),
                    terminal.same_size(t0),
                    t0.wf(),
                    self.wf(),
                    self.area.height >= 2,
                    self.area.fits(t0),
                    count == self.rendered_count(),
                    y0 == self.vertical_start(),
                    li < count,
                    line@ == self.spec_lines()[li as int],
                    x0 == self.horizontal_start(line@.len() as int),
                    1 <= x0,
                    x0 + line@.len() <= self.area.width - 1,
                    1 <= y0,
                    y0 + count <= self.area.height - 1,
                    k <= line@.len(),
                    forall|gx: int, gy: int|
                        t0.in_range(gx, gy) ==> terminal.spec_cell(gx, gy) == (if self.content_covers_upto(
                            gx,
                            gy,
                            li as int,
                        ) || (gy == self.area.y + y0 + li && self.area.x + x0 <= gx
                            < self.area.x + x0 + k) {
                            self.rendered_cell(t0.spec_cell(gx, gy), gx, gy)
                        } else {
                            self.area.rendered_cell(t0.spec_cell(gx, gy), gx, gy)
                        }),
                decreases line@.len() - k,
            {
                let gx = self.area.x + x0 + k;
                let gy = self.area.y + y0 + li;
                let mut cell = terminal.cell_at(gx, gy);
                cell.character = line[k];
                terminal.put_cell(gx, gy, cell);
                k = k + 1;
            }
            li = li + 1;
        }
    }
}

impl Rectangle {
    /// Consumes the rectangle and attaches a text content to it.
    pub fn text(
        self,
        text: String,
        vertical_alignment: VerticalAlignment,
        horizontal_alignment: HorizontalAlignment,
    ) -> (r: Text)
        requires
            self.wf(),
            self.width > 2,
        ensures
            r.text@ == text@,
            r.vertical_alignment == vertical_alignment,
            r.horizontal_alignment == horizontal_alignment,
            r.area == self,
            r.wf(),
    {
        Text::new(text, vertical_alignment, horizontal_alignment, self)
    }
}

} // verus!
